//! The control records of comments: identifiers, authors, metadata and the text of a block.

use crate::error;
use crate::error::{Error, ErrorKind, Failure};
use crate::outline::Span;
use crate::outside;
use crate::text;
use crate::text::CharClass;
use vstd::prelude::*;
use vstd::slice::slice_subrange;

verus! {

/// The line that makes a section the one that holds the comments.
pub const COMMENTS_MARKER: &'static str = "<!-- kbmd:comments:v1 -->";

/// The first line of a comment.
pub const COMMENT_START: &'static str = "<!-- kbmd:comment:v1";

/// What the last line of a comment begins with.
pub const COMMENT_END_PREFIX: &'static str = "<!-- kbmd:comment:end ";

/// What a comment id begins with.
pub const COMMENT_ID_PREFIX: &'static str = "CMT-";

/// How long an author can be.
pub const MAX_AUTHOR_CHARS: usize = 128;

/// The metadata of a comment as specifications speak of it.
#[verifier::ext_equal]
pub struct MetaView {
    pub version: u8,
    pub id: Seq<char>,
    pub author: Seq<char>,
    pub created_at: Seq<char>,
}

/// The metadata of a comment.
pub struct Meta {
    pub version: u8,
    pub id: Vec<char>,
    pub author: Vec<char>,
    pub created_at: Vec<char>,
}

impl View for Meta {
    type V = MetaView;

    open spec fn view(&self) -> MetaView {
        MetaView {
            version: self.version,
            id: self.id@,
            author: self.author@,
            created_at: self.created_at@,
        }
    }
}

impl Meta {
    /// Copies metadata.
    pub fn copied(&self) -> (r: Meta)
        ensures
            r@ == self@,
    {
        Meta {
            version: self.version,
            id: text::copy_of(&self.id),
            author: text::copy_of(&self.author),
            created_at: text::copy_of(&self.created_at),
        }
    }
}

/// What is demanded of an author.
pub open spec fn author_check(author: Seq<char>) -> Result<(), Failure> {
    if author.len() == 0 {
        Err(error::plain(ErrorKind::EmptyAuthor))
    } else if author.len() > MAX_AUTHOR_CHARS {
        Err(error::plain(ErrorKind::LongAuthor))
    } else if text::has_control(author) {
        Err(error::plain(ErrorKind::ControlInAuthor))
    } else if text::occurs(author, "-->"@) {
        Err(error::plain(ErrorKind::TerminatorInAuthor))
    } else {
        Ok(())
    }
}

/// An author without surrounding white space, or why it is refused.
pub open spec fn author_of(author: Seq<char>) -> Result<Seq<char>, Failure> {
    match author_check(text::trim(author)) {
        Ok(_) => Ok(text::trim(author)),
        Err(failure) => Err(failure),
    }
}

/// What is demanded of a comment id: the prefix and a UUID of version seven in canonical form.
pub open spec fn id_check(id: Seq<char>) -> Result<(), Failure> {
    if !text::begins(id, COMMENT_ID_PREFIX@) {
        Err(error::plain(ErrorKind::IdPrefix))
    } else {
        match outside::uuid_value(id.skip(COMMENT_ID_PREFIX@.len() as int)) {
            None => Err(error::plain(ErrorKind::IdNotUuid)),
            Some(uuid) => if outside::version_field(uuid) != 7 {
                Err(error::plain(ErrorKind::IdNotVersionSeven))
            } else if COMMENT_ID_PREFIX@ + outside::hyphenated(uuid) != id {
                Err(error::plain(ErrorKind::IdNotCanonical))
            } else {
                Ok(())
            },
        }
    }
}

/// What is demanded of a creation time.
pub open spec fn time_check(time: Seq<char>) -> Result<(), Failure> {
    match outside::rfc3339_offset(time) {
        None => Err(error::plain(ErrorKind::InvalidTimestamp)),
        Some(offset) => if offset != 0 {
            Err(error::plain(ErrorKind::TimestampNotUtc))
        } else {
            Ok(())
        },
    }
}

/// What is demanded of metadata.
pub open spec fn meta_check(meta: MetaView) -> Result<(), Failure> {
    if meta.version != 1 {
        Err(error::about(ErrorKind::UnsupportedVersion, text::decimal(meta.version as nat)))
    } else if id_check(meta.id) is Err {
        id_check(meta.id)
    } else if text::trim(meta.author) != meta.author {
        Err(error::plain(ErrorKind::PaddedAuthor))
    } else if author_check(meta.author) is Err {
        author_check(meta.author)
    } else {
        time_check(meta.created_at)
    }
}

/// Checks an author.
pub fn validate_author(author: &[char]) -> (r: Result<(), Error>)
    ensures
        error::decides(r, author_check(author@)),
{
    if author.len() == 0 {
        return Err(Error::plain(ErrorKind::EmptyAuthor));
    }
    if author.len() > MAX_AUTHOR_CHARS {
        return Err(Error::plain(ErrorKind::LongAuthor));
    }
    if text::controlled(author) {
        return Err(Error::plain(ErrorKind::ControlInAuthor));
    }
    if text::stands_in(author, &text::chars_of("-->")) {
        return Err(Error::plain(ErrorKind::TerminatorInAuthor));
    }
    Ok(())
}

/// Trims and checks an author.
pub fn normalized_author(author: &str) -> (r: Result<String, Error>)
    ensures
        error::agrees(r, author_of(author@)),
{
    let chars = text::chars_of(author);
    let author = text::trimmed(&chars, CharClass::Space);
    match validate_author(author) {
        Ok(_) => Ok(text::string_of(author)),
        Err(error) => Err(error),
    }
}

/// Checks a comment id.
pub fn validate_id(id: &[char]) -> (r: Result<(), Error>)
    ensures
        error::decides(r, id_check(id@)),
{
    let prefix = text::chars_of(COMMENT_ID_PREFIX);
    if !text::stands_at(id, &prefix, 0) {
        return Err(Error::plain(ErrorKind::IdPrefix));
    }
    let raw = text::string_of(slice_subrange(id, prefix.len(), id.len()));
    assert(raw@ =~= id@.skip(COMMENT_ID_PREFIX@.len() as int));
    match outside::parse_uuid(&raw) {
        None => Err(Error::plain(ErrorKind::IdNotUuid)),
        Some(uuid) => {
            if outside::uuid_version(uuid) != 7 {
                return Err(Error::plain(ErrorKind::IdNotVersionSeven));
            }
            let canonical = canonical_id(uuid);
            if !text::same(&canonical, id) {
                return Err(Error::plain(ErrorKind::IdNotCanonical));
            }
            Ok(())
        },
    }
}

/// The comment id that holds a UUID.
pub fn canonical_id(uuid: u128) -> (r: Vec<char>)
    ensures
        r@ == COMMENT_ID_PREFIX@ + outside::hyphenated(uuid),
        outside::uuid_value(outside::hyphenated(uuid)) == Some(uuid),
{
    let mut out = text::chars_of(COMMENT_ID_PREFIX);
    let hyphenated = outside::uuid_text(uuid);
    text::push_all(&mut out, &text::chars_of(&hyphenated));
    out
}

/// Checks a creation time.
pub fn validate_timestamp(time: &[char]) -> (r: Result<(), Error>)
    ensures
        error::decides(r, time_check(time@)),
{
    match outside::time_offset(&text::string_of(time)) {
        None => Err(Error::plain(ErrorKind::InvalidTimestamp)),
        Some(offset) => if offset != 0 {
            Err(Error::plain(ErrorKind::TimestampNotUtc))
        } else {
            Ok(())
        },
    }
}

/// Checks metadata.
pub fn validate_metadata(meta: &Meta) -> (r: Result<(), Error>)
    ensures
        error::decides(r, meta_check(meta@)),
{
    if meta.version != 1 {
        let version = text::decimal_of(meta.version as u64);
        return Err(Error::about(ErrorKind::UnsupportedVersion, &version));
    }
    match validate_id(&meta.id) {
        Ok(_) => {},
        Err(error) => {
            return Err(error);
        },
    }
    if !text::same(text::trimmed(&meta.author, CharClass::Space), &meta.author) {
        return Err(Error::plain(ErrorKind::PaddedAuthor));
    }
    match validate_author(&meta.author) {
        Ok(_) => {},
        Err(error) => {
            return Err(error);
        },
    }
    validate_timestamp(&meta.created_at)
}

/// Whether a character has a meaning in Markdown that a backslash takes away.
pub open spec fn is_marked(c: char) -> bool {
    c == '\\' || c == '`' || c == '*' || c == '_' || c == '{' || c == '}' || c == '[' || c == ']'
        || c == '<' || c == '>' || c == '(' || c == ')' || c == '#' || c == '+' || c == '-' || c
        == '.' || c == '!' || c == '|'
}

/// The first `n` characters with a backslash before each that has a meaning in Markdown.
pub open spec fn escaped(s: Seq<char>, n: nat) -> Seq<char>
    decreases n,
{
    if n == 0 || n > s.len() {
        Seq::empty()
    } else {
        let before = escaped(s, (n - 1) as nat);
        if is_marked(s[n - 1]) {
            before.push('\\').push(s[n - 1])
        } else {
            before.push(s[n - 1])
        }
    }
}

/// Puts a backslash before each character that has a meaning in Markdown.
pub fn escape_markdown_inline(value: &[char]) -> (r: Vec<char>)
    ensures
        r@ == escaped(value@, value@.len()),
{
    let mut out: Vec<char> = Vec::new();
    let mut i: usize = 0;
    while i < value.len()
        invariant
            i <= value@.len(),
            out@ == escaped(value@, i as nat),
        decreases value@.len() - i,
    {
        let c = value[i];
        if c == '\\' || c == '`' || c == '*' || c == '_' || c == '{' || c == '}' || c == '[' || c
            == ']' || c == '<' || c == '>' || c == '(' || c == ')' || c == '#' || c == '+' || c
            == '-' || c == '.' || c == '!' || c == '|' {
            out.push('\\');
        }
        out.push(c);
        i += 1;
    }
    out
}

/// The line that shows a reader who wrote a comment, and when.
pub open spec fn attribution(author: Seq<char>, created_at: Seq<char>) -> Seq<char> {
    "Comment by **"@ + escaped(author, author.len()) + "** · "@ + created_at
}

/// Writes the attribution of a comment.
pub fn attribution_of(author: &[char], created_at: &[char]) -> (r: Vec<char>)
    ensures
        r@ == attribution(author@, created_at@),
{
    let mut out = text::chars_of("Comment by **");
    text::push_all(&mut out, &escape_markdown_inline(author));
    text::push_all(&mut out, &text::chars_of("** · "));
    text::push_all(&mut out, created_at);
    out
}

/// The last line of a comment.
pub open spec fn end_marker(id: Seq<char>) -> Seq<char> {
    COMMENT_END_PREFIX@ + id + " -->"@
}

/// Writes the last line of a comment.
pub fn end_marker_of(id: &[char]) -> (r: Vec<char>)
    ensures
        r@ == end_marker(id@),
{
    let mut out = text::chars_of(COMMENT_END_PREFIX);
    text::push_all(&mut out, id);
    text::push_all(&mut out, &text::chars_of(" -->"));
    out
}

/// The first line from `at` on that is the end marker of a comment.
pub open spec fn end_from(s: Seq<char>, at: int, id: Seq<char>) -> Result<Span, Failure>
    decreases s.len() - at,
{
    if at < 0 || at >= s.len() {
        Err(error::about(ErrorKind::UnfinishedComment, id))
    } else if text::line_at(s, at) == end_marker(id) {
        Ok(Span { start: at as usize, end: text::line_end(s, at) as usize })
    } else {
        proof {
            text::lemma_line_end(s, at);
        }
        end_from(s, text::line_end(s, at), id)
    }
}

/// Finds the end marker of a comment.
pub fn matching_comment_end(body: &[char], start: usize, id: &[char]) -> (r: Result<Span, Error>)
    requires
        start <= body@.len(),
    ensures
        match r {
            Ok(span) => end_from(body@, start as int, id@) == Ok::<Span, Failure>(span) && start
                <= span.start < span.end <= body@.len(),
            Err(error) => end_from(body@, start as int, id@) == Err::<Span, Failure>(error@),
        },
{
    let marker = end_marker_of(id);
    let mut at: usize = start;
    while at < body.len()
        invariant
            start <= at <= body@.len(),
            marker@ == end_marker(id@),
            end_from(body@, at as int, id@) == end_from(body@, start as int, id@),
        decreases body@.len() - at,
    {
        let end = text::end_of_line(body, at);
        let line = text::text_of_line(slice_subrange(body, at, end));
        if text::same(line, &marker) {
            return Ok(Span { start: at, end });
        }
        at = end;
    }
    Err(Error::about(ErrorKind::UnfinishedComment, id))
}

/// The start record that begins at `start`: its lines from `at` on are still to be read.
pub open spec fn record_from(s: Seq<char>, start: int, at: int) -> Result<Span, Failure>
    decreases s.len() - at,
{
    if at < 0 || at >= s.len() {
        Err(error::plain(ErrorKind::UnterminatedStart))
    } else {
        let line = text::line_at(s, at);
        let end = text::line_end(s, at);
        proof {
            text::lemma_line_end(s, at);
        }
        if at == start {
            if line != COMMENT_START@ {
                Err(error::plain(ErrorKind::MalformedStart))
            } else {
                record_from(s, start, end)
            }
        } else if line == "-->"@ {
            Ok(Span { start: start as usize, end: end as usize })
        } else if text::occurs(line, "-->"@) {
            Err(error::plain(ErrorKind::InlineTerminator))
        } else if text::begins(line, "<!-- kbmd:comment"@) {
            Err(error::plain(ErrorKind::NestedMarkerInMetadata))
        } else {
            record_from(s, start, end)
        }
    }
}

/// Finds the end of a start record.
pub fn comment_start_record_range(body: &[char], start: usize) -> (r: Result<Span, Error>)
    requires
        start <= body@.len(),
    ensures
        match r {
            Ok(span) => record_from(body@, start as int, start as int) == Ok::<Span, Failure>(span)
                && start == span.start && span.start < span.end <= body@.len(),
            Err(error) => record_from(body@, start as int, start as int) == Err::<Span, Failure>(
                error@,
            ),
        },
{
    let first = text::chars_of(COMMENT_START);
    let terminator = text::chars_of("-->");
    let control = text::chars_of("<!-- kbmd:comment");
    let mut at: usize = start;
    while at < body.len()
        invariant
            start <= at <= body@.len(),
            first@ == COMMENT_START@,
            terminator@ == "-->"@,
            control@ == "<!-- kbmd:comment"@,
            record_from(body@, start as int, at as int) == record_from(
                body@,
                start as int,
                start as int,
            ),
        decreases body@.len() - at,
    {
        let end = text::end_of_line(body, at);
        let line = text::text_of_line(slice_subrange(body, at, end));
        if at == start {
            if !text::same(line, &first) {
                return Err(Error::plain(ErrorKind::MalformedStart));
            }
        } else if text::same(line, &terminator) {
            return Ok(Span { start, end });
        } else if text::stands_in(line, &terminator) {
            return Err(Error::plain(ErrorKind::InlineTerminator));
        } else if text::stands_at(line, &control, 0) {
            return Err(Error::plain(ErrorKind::NestedMarkerInMetadata));
        }
        at = end;
    }
    Err(Error::plain(ErrorKind::UnterminatedStart))
}

/// The place of a metadata key in a record.
pub open spec fn key_index(key: Seq<char>) -> Option<int> {
    if key == "version"@ {
        Some(0)
    } else if key == "id"@ {
        Some(1)
    } else if key == "author"@ {
        Some(2)
    } else if key == "created_at"@ {
        Some(3)
    } else {
        None
    }
}

/// The metadata key at a place.
pub open spec fn key_name(index: int) -> Seq<char> {
    if index == 0 {
        "version"@
    } else if index == 1 {
        "id"@
    } else if index == 2 {
        "author"@
    } else {
        "created_at"@
    }
}

/// What stands before the first colon of a line.
pub open spec fn key_of(line: Seq<char>) -> Seq<char> {
    line.take(text::next_index(line, ':', 0))
}

/// Which keys the lines from `i` on add to those that are found.
pub open spec fn keys_from(lines: Seq<Seq<char>>, i: int, found: Seq<bool>) -> Result<
    Seq<bool>,
    Failure,
>
    decreases lines.len() - i,
{
    if i < 0 || i >= lines.len() {
        Ok(found)
    } else {
        let line = lines[i];
        let key = key_of(line);
        if text::is_blank(line) {
            keys_from(lines, i + 1, found)
        } else if text::in_class(CharClass::Blank, line[0]) {
            Err(error::plain(ErrorKind::IndentedMetadata))
        } else if !line.contains(':') {
            Err(error::plain(ErrorKind::MalformedMetadata))
        } else {
            match key_index(key) {
                None => Err(error::about(ErrorKind::UnknownMetadataKey, key)),
                Some(index) => if found[index] {
                    Err(error::about(ErrorKind::DuplicateMetadataKey, key))
                } else {
                    keys_from(lines, i + 1, found.update(index, true))
                },
            }
        }
    }
}

/// What is demanded of the lines of metadata: each of the four keys once, and nothing else.
pub open spec fn keys_check(yaml: Seq<char>) -> Result<(), Failure> {
    match keys_from(text::lines(yaml), 0, seq![false, false, false, false]) {
        Err(failure) => Err(failure),
        Ok(found) => if !found[0] {
            Err(error::about(ErrorKind::MissingMetadataKey, key_name(0)))
        } else if !found[1] {
            Err(error::about(ErrorKind::MissingMetadataKey, key_name(1)))
        } else if !found[2] {
            Err(error::about(ErrorKind::MissingMetadataKey, key_name(2)))
        } else if !found[3] {
            Err(error::about(ErrorKind::MissingMetadataKey, key_name(3)))
        } else {
            Ok(())
        },
    }
}

/// Looks up the place of a metadata key.
fn key_place(key: &[char]) -> (r: Option<usize>)
    ensures
        match r {
            Some(i) => i < 4 && key_index(key@) == Some(i as int),
            None => key_index(key@) is None,
        },
{
    if text::same(key, &text::chars_of("version")) {
        Some(0)
    } else if text::same(key, &text::chars_of("id")) {
        Some(1)
    } else if text::same(key, &text::chars_of("author")) {
        Some(2)
    } else if text::same(key, &text::chars_of("created_at")) {
        Some(3)
    } else {
        None
    }
}

/// Checks the lines of metadata.
pub fn validate_metadata_keys(yaml: &[char]) -> (r: Result<(), Error>)
    ensures
        error::decides(r, keys_check(yaml@)),
{
    let lines = text::lines_of(yaml);
    let ghost views = text::texts(lines@);
    let mut found: Vec<bool> = Vec::new();
    found.push(false);
    found.push(false);
    found.push(false);
    found.push(false);
    let ghost none = seq![false, false, false, false];
    assert(found@ =~= none);
    let mut i: usize = 0;
    while i < lines.len()
        invariant
            i <= lines@.len(),
            views == text::texts(lines@),
            views == text::lines(yaml@),
            none == seq![false, false, false, false],
            found@.len() == 4,
            keys_from(views, i as int, found@) == keys_from(views, 0, none),
        decreases lines@.len() - i,
    {
        let line = lines[i].as_slice();
        assert(views[i as int] == line@);
        if !text::blank(line) {
            if text::has_class(CharClass::Blank, line[0]) {
                return Err(Error::plain(ErrorKind::IndentedMetadata));
            }
            let colon = text::find_char(line, ':', 0);
            proof {
                text::lemma_next_index_is(line@, ':', 0);
            }
            if colon == line.len() {
                return Err(Error::plain(ErrorKind::MalformedMetadata));
            }
            assert(line@[colon as int] == ':');
            let key = slice_subrange(line, 0, colon);
            assert(key@ =~= key_of(line@));
            match key_place(key) {
                None => {
                    return Err(Error::about(ErrorKind::UnknownMetadataKey, key));
                },
                Some(index) => {
                    if found[index] {
                        return Err(Error::about(ErrorKind::DuplicateMetadataKey, key));
                    }
                    found.set(index, true);
                },
            }
        }
        i += 1;
    }
    if !found[0] {
        return Err(Error::about(ErrorKind::MissingMetadataKey, &text::chars_of("version")));
    }
    if !found[1] {
        return Err(Error::about(ErrorKind::MissingMetadataKey, &text::chars_of("id")));
    }
    if !found[2] {
        return Err(Error::about(ErrorKind::MissingMetadataKey, &text::chars_of("author")));
    }
    if !found[3] {
        return Err(Error::about(ErrorKind::MissingMetadataKey, &text::chars_of("created_at")));
    }
    Ok(())
}

/// The place of the first line from `i` on that holds the version, or the number of the lines.
pub open spec fn version_place(lines: Seq<Seq<char>>, i: int) -> int
    decreases lines.len() - i,
{
    if i < 0 || i >= lines.len() {
        lines.len() as int
    } else if key_of(lines[i]) == "version"@ {
        i
    } else {
        version_place(lines, i + 1)
    }
}

/// A line together with the line behind which it stands.
pub open spec fn line_pair(first: Seq<char>, line: Seq<char>) -> Seq<char> {
    first + seq!['\n'] + line
}

/// The numbers that a line gives together with the nearest of the first `n` lines with which it gives
/// a mapping of strings. Where it is an alias, that is the line of its anchor.
pub open spec fn paired_numbers(lines: Seq<Seq<char>>, line: Seq<char>, n: nat) -> Option<
    Seq<(Seq<char>, u8)>,
>
    decreases n,
{
    if n == 0 || n > lines.len() {
        None
    } else {
        let pair = line_pair(lines[n - 1], line);
        match outside::yaml_strings(pair) {
            Some(_) => outside::yaml_numbers(pair),
            None => paired_numbers(lines, line, (n - 1) as nat),
        }
    }
}

/// The numbers that the line with the version gives: alone, or where it is an alias, together with
/// the line of the anchor.
pub open spec fn version_numbers(lines: Seq<Seq<char>>) -> Option<Seq<(Seq<char>, u8)>> {
    let place = version_place(lines, 0);
    let line = if place < lines.len() {
        lines[place]
    } else {
        Seq::empty()
    };
    match outside::yaml_numbers(line) {
        Some(numbers) => Some(numbers),
        None => paired_numbers(lines, line, place as nat),
    }
}

/// The lines without the one that holds the version.
pub open spec fn other_lines(lines: Seq<Seq<char>>) -> Seq<Seq<char>> {
    let place = version_place(lines, 0);
    if 0 <= place < lines.len() {
        lines.remove(place)
    } else {
        lines
    }
}

/// The strings that a YAML text gives, or where it gives none, which a version that is marked as a
/// number is a reason for, those that its other lines give.
pub open spec fn other_strings(yaml: Seq<char>) -> Option<Seq<(Seq<char>, Seq<char>)>> {
    match outside::yaml_strings(yaml) {
        Some(strings) => Some(strings),
        None => {
            let others = other_lines(text::lines(yaml));
            outside::yaml_strings(text::joined(others, others.len()))
        },
    }
}

/// The value of the first entry from `i` on with a key.
pub open spec fn value_of<T>(entries: Seq<(Seq<char>, T)>, key: Seq<char>, i: int) -> Option<T>
    decreases entries.len() - i,
{
    if i < 0 || i >= entries.len() {
        None
    } else if entries[i].0 == key {
        Some(entries[i].1)
    } else {
        value_of(entries, key, i + 1)
    }
}

/// The metadata that YAML entries give.
pub open spec fn meta_of(
    strings: Option<Seq<(Seq<char>, Seq<char>)>>,
    numbers: Option<Seq<(Seq<char>, u8)>>,
) -> Option<MetaView> {
    match (strings, numbers) {
        (Some(strings), Some(numbers)) => match (
            value_of(numbers, "version"@, 0),
            value_of(strings, "id"@, 0),
            value_of(strings, "author"@, 0),
            value_of(strings, "created_at"@, 0),
        ) {
            (Some(version), Some(id), Some(author), Some(created_at)) => Some(
                MetaView { version, id, author, created_at },
            ),
            _ => None,
        },
        _ => None,
    }
}

/// The metadata that a YAML text gives: the version is the number on its line, the other values are
/// those of the whole, or of the other lines where the whole is no mapping of strings.
pub open spec fn metadata(yaml: Seq<char>) -> Result<MetaView, Failure> {
    match keys_check(yaml) {
        Err(failure) => Err(failure),
        Ok(_) => match meta_of(other_strings(yaml), version_numbers(text::lines(yaml))) {
            Some(meta) => Ok(meta),
            None => Err(error::plain(ErrorKind::InvalidMetadataYaml)),
        },
    }
}

/// The YAML text in a start record.
pub open spec fn record_yaml(lines: Seq<Seq<char>>) -> Seq<char> {
    text::joined(lines.subrange(1, lines.len() - 1), (lines.len() - 2) as nat)
}

/// The metadata that a start record gives.
pub open spec fn record_metadata(record: Seq<char>) -> Result<MetaView, Failure> {
    let lines = text::lines(record);
    if lines.len() < 3 || lines[0] != COMMENT_START@ || lines.last() != "-->"@ {
        Err(error::about(ErrorKind::MalformedRecord, record))
    } else {
        metadata(record_yaml(lines))
    }
}

/// Looks up the string with a key.
fn string_with(entries: &Vec<(String, String)>, key: &str) -> (r: Option<Vec<char>>)
    ensures
        match r {
            Some(value) => value_of(outside::entry_views(entries@), key@, 0) == Some(value@),
            None => value_of(outside::entry_views(entries@), key@, 0) is None,
        },
{
    let wanted = text::chars_of(key);
    let ghost views = outside::entry_views(entries@);
    let mut i: usize = 0;
    while i < entries.len()
        invariant
            i <= entries@.len(),
            views == outside::entry_views(entries@),
            wanted@ == key@,
            value_of(views, key@, i as int) == value_of(views, key@, 0),
        decreases entries@.len() - i,
    {
        let entry = &entries[i];
        assert(views[i as int] == (entry.0@, entry.1@));
        if text::same(&text::chars_of(&entry.0), &wanted) {
            return Some(text::chars_of(&entry.1));
        }
        i += 1;
    }
    None
}

/// Looks up the number with a key.
fn number_with(entries: &Vec<(String, u8)>, key: &str) -> (r: Option<u8>)
    ensures
        r == value_of(outside::number_views(entries@), key@, 0),
{
    let wanted = text::chars_of(key);
    let ghost views = outside::number_views(entries@);
    let mut i: usize = 0;
    while i < entries.len()
        invariant
            i <= entries@.len(),
            views == outside::number_views(entries@),
            wanted@ == key@,
            value_of(views, key@, i as int) == value_of(views, key@, 0),
        decreases entries@.len() - i,
    {
        let entry = &entries[i];
        assert(views[i as int] == (entry.0@, entry.1));
        if text::same(&text::chars_of(&entry.0), &wanted) {
            return Some(entry.1);
        }
        i += 1;
    }
    None
}

/// The entries of an optional list of strings.
pub open spec fn some_entries(entries: Option<Vec<(String, String)>>) -> Option<
    Seq<(Seq<char>, Seq<char>)>,
> {
    match entries {
        Some(entries) => Some(outside::entry_views(entries@)),
        None => None,
    }
}

/// The entries of an optional list of numbers.
pub open spec fn some_numbers(entries: Option<Vec<(String, u8)>>) -> Option<Seq<(Seq<char>, u8)>> {
    match entries {
        Some(entries) => Some(outside::number_views(entries@)),
        None => None,
    }
}

/// Takes the metadata out of YAML entries.
pub fn metadata_of(
    strings: &Option<Vec<(String, String)>>,
    numbers: &Option<Vec<(String, u8)>>,
) -> (r: Option<Meta>)
    ensures
        match r {
            Some(meta) => meta_of(some_entries(*strings), some_numbers(*numbers)) == Some(meta@),
            None => meta_of(some_entries(*strings), some_numbers(*numbers)) is None,
        },
{
    match (strings, numbers) {
        (Some(strings), Some(numbers)) => match (
            number_with(numbers, "version"),
            string_with(strings, "id"),
            string_with(strings, "author"),
            string_with(strings, "created_at"),
        ) {
            (Some(version), Some(id), Some(author), Some(created_at)) => Some(
                Meta { version, id, author, created_at },
            ),
            _ => None,
        },
        _ => None,
    }
}

/// Finds the line with the version.
fn find_version(lines: &Vec<Vec<char>>) -> (r: usize)
    ensures
        r <= lines@.len(),
        r == version_place(text::texts(lines@), 0),
{
    let ghost views = text::texts(lines@);
    let wanted = text::chars_of("version");
    let mut place: usize = 0;
    while place < lines.len()
        invariant
            place <= lines@.len(),
            views == text::texts(lines@),
            wanted@ == "version"@,
            version_place(views, place as int) == version_place(views, 0),
        decreases lines@.len() - place,
    {
        assert(views[place as int] == lines@[place as int]@);
        let colon = text::find_char(&lines[place], ':', 0);
        let key = slice_subrange(lines[place].as_slice(), 0, colon);
        assert(key@ =~= key_of(views[place as int]));
        if text::same(key, &wanted) {
            return place;
        }
        place += 1;
    }
    place
}

/// Reads the numbers in the line with the version.
fn read_version(lines: &Vec<Vec<char>>) -> (r: Option<Vec<(String, u8)>>)
    ensures
        some_numbers(r) == version_numbers(text::texts(lines@)),
{
    let ghost views = text::texts(lines@);
    let place = find_version(lines);
    let mut line: Vec<char> = Vec::new();
    if place < lines.len() {
        assert(views[place as int] == lines@[place as int]@);
        line = text::copy_of(&lines[place]);
    }
    assert(place >= lines@.len() ==> line@ =~= Seq::empty());
    match outside::read_yaml_numbers(&text::string_of(&line)) {
        Some(numbers) => Some(numbers),
        None => read_pair(lines, &line, place),
    }
}

/// Reads the numbers in a line together with the nearest of the first `n` lines with which it gives a
/// mapping of strings.
fn read_pair(lines: &Vec<Vec<char>>, line: &Vec<char>, n: usize) -> (r: Option<Vec<(String, u8)>>)
    requires
        n <= lines@.len(),
    ensures
        some_numbers(r) == paired_numbers(text::texts(lines@), line@, n as nat),
{
    let ghost views = text::texts(lines@);
    let mut k: usize = n;
    while k > 0
        invariant
            k <= n <= lines@.len(),
            views == text::texts(lines@),
            paired_numbers(views, line@, k as nat) == paired_numbers(views, line@, n as nat),
        decreases k,
    {
        assert(views[k - 1] == lines@[k - 1]@);
        let mut pair = text::copy_of(&lines[k - 1]);
        pair.push('\n');
        text::push_all(&mut pair, line);
        assert(pair@ =~= line_pair(views[k - 1], line@));
        let pair = text::string_of(&pair);
        if outside::read_yaml_strings(&pair).is_some() {
            return outside::read_yaml_numbers(&pair);
        }
        k -= 1;
    }
    None
}

/// Joins lines with line feeds.
fn join_lines(lines: &Vec<Vec<char>>) -> (r: Vec<char>)
    ensures
        r@ == text::joined(text::texts(lines@), lines@.len()),
{
    let ghost views = text::texts(lines@);
    let mut out: Vec<char> = Vec::new();
    let mut i: usize = 0;
    assert(out@ =~= text::joined(views, 0));
    while i < lines.len()
        invariant
            i <= lines@.len(),
            views == text::texts(lines@),
            out@ == text::joined(views, i as nat),
        decreases lines@.len() - i,
    {
        assert(views[i as int] == lines@[i as int]@);
        if i > 0 {
            out.push('\n');
        }
        text::push_all(&mut out, &lines[i]);
        assert(out@ =~= text::joined(views, (i + 1) as nat));
        i += 1;
    }
    out
}

/// Reads the strings of a YAML text, or where it gives none, those of its lines but the one with the
/// version.
fn read_strings(yaml: &[char], lines: Vec<Vec<char>>) -> (r: Option<Vec<(String, String)>>)
    requires
        text::texts(lines@) == text::lines(yaml@),
    ensures
        some_entries(r) == other_strings(yaml@),
{
    match outside::read_yaml_strings(&text::string_of(yaml)) {
        Some(strings) => Some(strings),
        None => {
            let mut lines = lines;
            let ghost views = text::texts(lines@);
            let place = find_version(&lines);
            if place < lines.len() {
                let _ = lines.remove(place);
            }
            assert(text::texts(lines@) =~= other_lines(views));
            outside::read_yaml_strings(&text::string_of(&join_lines(&lines)))
        },
    }
}

/// Reads metadata.
pub fn parse_metadata(yaml: &[char]) -> (r: Result<Meta, Error>)
    ensures
        error::agrees(r, metadata(yaml@)),
{
    match validate_metadata_keys(yaml) {
        Ok(_) => {},
        Err(error) => {
            return Err(error);
        },
    }
    let lines = text::lines_of(yaml);
    let numbers = read_version(&lines);
    let strings = read_strings(yaml, lines);
    match metadata_of(&strings, &numbers) {
        Some(meta) => Ok(meta),
        None => Err(Error::plain(ErrorKind::InvalidMetadataYaml)),
    }
}

/// Reads the metadata in a start record.
pub fn parse_start_metadata(record: &[char]) -> (r: Result<Meta, Error>)
    ensures
        error::agrees(r, record_metadata(record@)),
{
    let lines = text::lines_of(record);
    let ghost views = text::texts(lines@);
    let count = lines.len();
    if count < 3 || !text::same(&lines[0], &text::chars_of(COMMENT_START)) || !text::same(
        &lines[count - 1],
        &text::chars_of("-->"),
    ) {
        proof {
            if count >= 3 {
                assert(views[0] == lines@[0]@);
                assert(views[count - 1] == lines@[count - 1]@);
            }
        }
        return Err(Error::about(ErrorKind::MalformedRecord, record));
    }
    assert(views[0] == lines@[0]@);
    assert(views[count - 1] == lines@[count - 1]@);
    let ghost inner = views.subrange(1, count - 1);
    let mut yaml = text::copy_of(&lines[1]);
    assert(inner[0] == lines@[1]@);
    let mut i: usize = 2;
    while i < count - 1
        invariant
            2 <= i <= count - 1,
            count == lines@.len(),
            views == text::texts(lines@),
            inner == views.subrange(1, count - 1),
            yaml@ == text::joined(inner, (i - 1) as nat),
        decreases count - i,
    {
        assert(inner[i - 1] == lines@[i as int]@);
        yaml.push('\n');
        text::push_all(&mut yaml, &lines[i]);
        assert(yaml@ =~= text::joined(inner, (i - 1) as nat) + seq!['\n'] + inner[i - 1]);
        i += 1;
    }
    parse_metadata(&yaml)
}

} // verus!
