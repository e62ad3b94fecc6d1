//! Flat, append-only comments embedded in a card's Markdown body.
//!
//! Control records are standalone CommonMark HTML comments. Attribution and comment text remain
//! ordinary Markdown for a human reader, while stable ids and authorship metadata stay machine
//! readable. Comments have no parent and no replies.

use crate::document;
use crate::document::CommentView;
use crate::error;
use crate::error::{Error, ErrorKind, Failure};
use crate::outline;
use crate::outline::{RegionView, Span};
use crate::outside;
use crate::record;
use crate::source;
use crate::source::Source;
use crate::text;
use crate::text::CharClass;
use std::ops::Range;
use vstd::prelude::*;
use vstd::slice::slice_subrange;

pub use crate::document::Comment;
pub use crate::record::{COMMENTS_MARKER, COMMENT_END_PREFIX, COMMENT_START};

verus! {

/// A range of characters as a range of bytes.
pub open spec fn byte_range(s: Seq<char>, span: Span) -> Range<usize> {
    Range {
        start: source::offset(s, span.start as int) as usize,
        end: source::offset(s, span.end as int) as usize,
    }
}

/// Ranges of characters as ranges of bytes.
pub open spec fn byte_ranges(s: Seq<char>, spans: Seq<Span>) -> Seq<Range<usize>> {
    spans.map_values(|span: Span| byte_range(s, span))
}

/// Turns ranges of characters into ranges of bytes.
fn to_byte_ranges(body: &Source, spans: &Vec<Span>) -> (r: Vec<Range<usize>>)
    requires
        body.well_formed(),
        outline::all_lie_in(spans@, body@.len() as int),
    ensures
        r@ == byte_ranges(body@, spans@),
{
    let mut out: Vec<Range<usize>> = Vec::new();
    let mut i: usize = 0;
    while i < spans.len()
        invariant
            i <= spans@.len(),
            body.well_formed(),
            outline::all_lie_in(spans@, body@.len() as int),
            out@ == byte_ranges(body@, spans@).take(i as int),
        decreases spans@.len() - i,
    {
        let span = spans[i];
        assert(outline::lies_in(spans@[i as int], body@.len() as int));
        out.push(body.byte(span.start)..body.byte(span.end));
        assert(out@ =~= byte_ranges(body@, spans@).take(i + 1));
        i += 1;
    }
    assert(out@ =~= byte_ranges(body@, spans@));
    out
}

/// Reads and checks all comments, in the order in which they stand in the body.
pub fn parse(body: &str) -> (r: Result<Vec<Comment>, Error>)
    ensures
        match (r, document::document(body@)) {
            (Ok(comments), Ok(document)) => document::comment_views(comments@) == document.comments,
            (Err(error), Err(failure)) => error@ == failure,
            _ => false,
        },
{
    let source = Source::of(body);
    match document::parse_document(&source.chars) {
        Ok(document) => Ok(document.comments),
        Err(error) => Err(error),
    }
}

/// The index of the first comment from `i` on with an id, whatever the case of its letters.
pub open spec fn comment_index(comments: Seq<CommentView>, id: Seq<char>, i: int) -> Option<int>
    decreases comments.len() - i,
{
    if i < 0 || i >= comments.len() {
        None
    } else if text::alike(comments[i].id, id) {
        Some(i)
    } else {
        comment_index(comments, id, i + 1)
    }
}

/// The comment of a body that has an id.
pub open spec fn comment_with(s: Seq<char>, id: Seq<char>) -> Result<CommentView, Failure> {
    match document::document(s) {
        Err(failure) => Err(failure),
        Ok(document) => match comment_index(document.comments, text::trim(id), 0) {
            Some(i) => Ok(document.comments[i]),
            None => Err(error::about(ErrorKind::CommentNotFound, text::trim(id))),
        },
    }
}

/// Finds a comment by its stable id.
pub fn find(body: &str, id: &str) -> (r: Result<Comment, Error>)
    ensures
        error::agrees(r, comment_with(body@, id@)),
{
    let mut comments = match parse(body) {
        Ok(comments) => comments,
        Err(error) => {
            return Err(error);
        },
    };
    let chars = text::chars_of(id);
    let wanted = text::trimmed(&chars, CharClass::Space);
    let ghost views = document::comment_views(comments@);
    let mut i: usize = 0;
    while i < comments.len()
        invariant
            i <= comments@.len(),
            views == document::comment_views(comments@),
            document::document(body@) matches Ok(document) && document.comments == views,
            wanted@ == text::trim(id@),
            comment_index(views, wanted@, i as int) == comment_index(views, wanted@, 0),
        decreases comments@.len() - i,
    {
        assert(views[i as int] == comments@[i as int]@);
        if text::same_folded(&text::chars_of(&comments[i].id), wanted) {
            return Ok(comments.swap_remove(i));
        }
        i += 1;
    }
    Err(Error::about(ErrorKind::CommentNotFound, wanted))
}

/// Checks the comments of a body.
pub fn validate(body: &str) -> (r: Result<(), Error>)
    ensures
        match (r, document::document(body@)) {
            (Ok(_), Ok(_)) => true,
            (Err(error), Err(failure)) => error@ == failure,
            _ => false,
        },
{
    let source = Source::of(body);
    match document::parse_document(&source.chars) {
        Ok(_) => Ok(()),
        Err(error) => Err(error),
    }
}

/// The ranges of bytes that complete control lines take.
///
/// They go up to and with the line ending where there is one. They cover the registry marker, start
/// records and end markers, never the visible attribution or the text of a comment.
pub fn hidden_ranges(body: &str) -> (r: Result<Vec<Range<usize>>, Error>)
    ensures
        match (r, document::document(body@)) {
            (Ok(ranges), Ok(document)) => ranges@ == byte_ranges(body@, document.hidden),
            (Err(error), Err(failure)) => error@ == failure,
            _ => false,
        },
{
    let source = Source::of(body);
    match document::parse_document(&source.chars) {
        Ok(document) => Ok(to_byte_ranges(&source, &document.hidden)),
        Err(error) => Err(error),
    }
}

/// The ranges of bytes that whole comments take. What is in them is discussion: its headings and
/// task lists are not those of the card.
pub fn content_ranges(body: &str) -> (r: Result<Vec<Range<usize>>, Error>)
    ensures
        match (r, document::document(body@)) {
            (Ok(ranges), Ok(document)) => ranges@ == byte_ranges(body@, document.ranges),
            (Err(error), Err(failure)) => error@ == failure,
            _ => false,
        },
{
    let source = Source::of(body);
    match document::parse_document(&source.chars) {
        Ok(document) => Ok(to_byte_ranges(&source, &document.ranges)),
        Err(error) => Err(error),
    }
}

/// The section that the comments registry protects.
pub open spec fn protected(s: Seq<char>) -> Result<Option<Span>, Failure> {
    match document::document(s) {
        Err(failure) => Err(failure),
        Ok(document) => Ok(
            match document.registry {
                Some(registry) => Some(
                    Span { start: registry.section.start, end: registry.section.end },
                ),
                None => None,
            },
        ),
    }
}

/// Finds the section that the comments registry protects, in characters.
pub(crate) fn protected_span(s: &[char]) -> (r: Result<Option<Span>, Error>)
    requires
        source::fits(s@),
    ensures
        match r {
            Ok(span) => protected(s@) == Ok::<Option<Span>, Failure>(span) && (span matches Some(
                span,
            ) ==> span.start <= s@.len() && span.end <= s@.len()),
            Err(error) => protected(s@) == Err::<Option<Span>, Failure>(error@),
        },
{
    match document::parse_document(s) {
        Err(error) => Err(error),
        Ok(document) => match document.registry {
            Some(registry) => Ok(
                Some(Span { start: registry.section.start, end: registry.section.end }),
            ),
            None => Ok(None),
        },
    }
}

/// The range of bytes of the section that the comments registry protects.
pub fn registry_section_range(body: &str) -> (r: Result<Option<Range<usize>>, Error>)
    ensures
        match (r, protected(body@)) {
            (Ok(Some(range)), Ok(Some(span))) => range == byte_range(body@, span),
            (Ok(None), Ok(None)) => true,
            (Err(error), Err(failure)) => error@ == failure,
            _ => false,
        },
{
    let source = Source::of(body);
    match protected_span(&source.chars) {
        Err(error) => Err(error),
        Ok(None) => Ok(None),
        Ok(Some(span)) => Ok(Some(source.byte(span.start)..source.byte(span.end))),
    }
}

/// The block of a comment.
pub open spec fn rendered(comment: CommentView) -> Option<Seq<char>> {
    match (
        outside::yaml_number_line("version"@, comment.version),
        outside::yaml_string_line("id"@, comment.id),
        outside::yaml_string_line("author"@, comment.author),
        outside::yaml_string_line("created_at"@, comment.created_at),
    ) {
        (Some(version), Some(id), Some(author), Some(created_at)) => Some(
            block(comment, text::trim_end(version + id + author + created_at, CharClass::LineEnd)),
        ),
        _ => None,
    }
}

/// The block of a comment with the YAML text of its metadata.
pub open spec fn block(comment: CommentView, yaml: Seq<char>) -> Seq<char> {
    COMMENT_START@ + "\n"@ + yaml + "\n-->\n"@ + record::attribution(
        comment.author,
        comment.created_at,
    ) + "\n\n"@ + comment.body + "\n\n"@ + record::end_marker(comment.id)
}

/// Writes the block of a comment with the YAML text of its metadata.
fn block_of(comment: &Comment, yaml: &[char]) -> (r: Vec<char>)
    ensures
        r@ == block(comment@, yaml@),
{
    let mut out = text::chars_of(COMMENT_START);
    text::push_all(&mut out, &text::chars_of("\n"));
    text::push_all(&mut out, yaml);
    text::push_all(&mut out, &text::chars_of("\n-->\n"));
    let author = text::chars_of(&comment.author);
    let created_at = text::chars_of(&comment.created_at);
    text::push_all(&mut out, &record::attribution_of(&author, &created_at));
    text::push_all(&mut out, &text::chars_of("\n\n"));
    text::push_all(&mut out, &text::chars_of(&comment.body));
    text::push_all(&mut out, &text::chars_of("\n\n"));
    text::push_all(&mut out, &record::end_marker_of(&text::chars_of(&comment.id)));
    out
}

/// Writes the block of a comment.
pub fn render_comment(comment: &Comment) -> (r: Result<String, Error>)
    ensures
        match (r, rendered(comment@)) {
            (Ok(block), Some(expected)) => block@ == expected,
            (Err(error), None) => error@ == error::plain(ErrorKind::MetadataNotRendered),
            _ => false,
        },
{
    match (
        outside::write_yaml_number("version", comment.version),
        outside::write_yaml_string("id", &comment.id),
        outside::write_yaml_string("author", &comment.author),
        outside::write_yaml_string("created_at", &comment.created_at),
    ) {
        (Some(version), Some(id), Some(author), Some(created_at)) => {
            let mut yaml = text::chars_of(&version);
            text::push_all(&mut yaml, &text::chars_of(&id));
            text::push_all(&mut yaml, &text::chars_of(&author));
            text::push_all(&mut yaml, &text::chars_of(&created_at));
            let yaml = text::without_trail(&yaml, CharClass::LineEnd);
            Ok(text::string_of(&block_of(comment, yaml)))
        },
        _ => Err(Error::plain(ErrorKind::MetadataNotRendered)),
    }
}

/// What makes a blank line behind what stands before a block.
pub open spec fn gap_behind(before: Seq<char>) -> Seq<char> {
    if before.len() == 0 || text::finishes(before, "\n\n"@) || text::finishes(
        before,
        "\r\n\r\n"@,
    ) {
        Seq::empty()
    } else if text::finishes(before, "\n"@) {
        "\n"@
    } else {
        "\n\n"@
    }
}

/// What makes a blank line before what stands behind a block.
pub open spec fn gap_before(after: Seq<char>) -> Seq<char> {
    if after.len() == 0 {
        "\n"@
    } else if text::begins(after, "\n\n"@) || text::begins(after, "\r\n\r\n"@) {
        Seq::empty()
    } else if text::begins(after, "\n"@) {
        "\n"@
    } else {
        "\n\n"@
    }
}

/// A body with a block put in at an index, set off by blank lines.
pub open spec fn inserted(s: Seq<char>, at: int, block: Seq<char>) -> Seq<char> {
    s.take(at) + gap_behind(s.take(at)) + block + gap_before(s.skip(at)) + s.skip(at)
}

/// Puts a block into a body at an index.
fn insert_block(s: &[char], at: usize, block: &[char]) -> (r: Vec<char>)
    requires
        at <= s@.len(),
    ensures
        r@ == inserted(s@, at as int, block@),
{
    let before = slice_subrange(s, 0, at);
    let after = slice_subrange(s, at, s.len());
    assert(before@ =~= s@.take(at as int));
    assert(after@ =~= s@.skip(at as int));
    let one = text::chars_of("\n");
    let two = text::chars_of("\n\n");
    let carriage = text::chars_of("\r\n\r\n");
    let mut out = text::copy_of(before);
    if before.len() == 0 || text::ends(before, &two) || text::ends(before, &carriage) {
        assert(out@ =~= before@ + gap_behind(before@));
    } else if text::ends(before, &one) {
        text::push_all(&mut out, &one);
    } else {
        text::push_all(&mut out, &two);
    }
    text::push_all(&mut out, block);
    let ghost so_far = out@;
    if after.len() == 0 {
        text::push_all(&mut out, &one);
    } else if text::stands_at(after, &two, 0) || text::stands_at(after, &carriage, 0) {
        assert(out@ =~= so_far + gap_before(after@));
    } else if text::stands_at(after, &one, 0) {
        text::push_all(&mut out, &one);
    } else {
        text::push_all(&mut out, &two);
    }
    text::push_all(&mut out, after);
    out
}

/// What is demanded of a new comment.
pub open spec fn new_comment_check(comment: CommentView) -> Result<(), Failure> {
    if record::author_check(comment.author) is Err {
        record::author_check(comment.author)
    } else if record::id_check(comment.id) is Err {
        record::id_check(comment.id)
    } else if record::time_check(comment.created_at) is Err {
        record::time_check(comment.created_at)
    } else if text::is_blank(comment.body) {
        Err(error::plain(ErrorKind::EmptyText))
    } else {
        Ok(())
    }
}

/// A body without a registry with a first block put in, given its sections: at the end of the
/// content of the one section named Comments itself, or in a new section at the end of the body.
pub open spec fn adopted(s: Seq<char>, sections: Seq<RegionView>, block: Seq<char>) -> Result<
    Seq<char>,
    Failure,
> {
    match outline::only_titled(sections, "Comments"@) {
        Err(count) => Err(
            error::detailed(ErrorKind::AmbiguousSection, "Comments"@, text::decimal(count)),
        ),
        Ok(Some(i)) => Ok(
            inserted(
                s,
                outline::direct_end(sections, sections[i], 0) as int,
                COMMENTS_MARKER@ + "\n\n"@ + block,
            ),
        ),
        Ok(None) => Ok(
            inserted(
                s,
                s.len() as int,
                "## Comments\n\n"@ + COMMENTS_MARKER@ + "\n\n"@ + block,
            ),
        ),
    }
}

/// A body with a block put in where new comments go.
pub open spec fn extended(
    s: Seq<char>,
    document: document::DocumentView,
    block: Seq<char>,
) -> Result<Seq<char>, Failure> {
    match document.registry {
        Some(registry) => Ok(inserted(s, registry.direct_end as int, block)),
        None => match document::structural_sections(s, Seq::empty()) {
            None => Err(error::plain(ErrorKind::ParserRange)),
            Some(sections) => adopted(s, sections, block),
        },
    }
}

/// A body with a new comment. The result is read again, so a body in which the comments would not
/// be in order is never given out.
pub open spec fn appended(s: Seq<char>, comment: CommentView) -> Result<
    (Seq<char>, CommentView),
    Failure,
> {
    match new_comment_check(comment) {
        Err(failure) => Err(failure),
        Ok(_) => match document::document(s) {
            Err(failure) => Err(failure),
            Ok(document) => match rendered(comment) {
                None => Err(error::plain(ErrorKind::MetadataNotRendered)),
                Some(block) => match extended(s, document, block) {
                    Err(failure) => Err(failure),
                    Ok(updated) => match document::document(updated) {
                        Err(failure) => Err(failure),
                        Ok(_) => Ok((updated, comment)),
                    },
                },
            },
        },
    }
}

/// Puts a first block into a body without a registry, given its sections.
pub fn adopt(s: &[char], sections: &Vec<outline::Region>, block: &[char]) -> (r: Result<
    Vec<char>,
    Error,
>)
    requires
        outline::bounded(outline::region_views(sections@), s@.len() as int),
    ensures
        error::agrees(r, adopted(s@, outline::region_views(sections@), block@)),
{
    let title = text::chars_of("Comments");
    let mut marked = text::chars_of(COMMENTS_MARKER);
    text::push_all(&mut marked, &text::chars_of("\n\n"));
    text::push_all(&mut marked, block);
    match outline::find_titled(sections, &title) {
        Err(count) => {
            let count = text::decimal_of(count as u64);
            Err(Error::detailed(ErrorKind::AmbiguousSection, &title, &count))
        },
        Ok(Some(i)) => {
            let ghost views = outline::region_views(sections@);
            assert(views[i as int] == sections@[i as int]@);
            let end = outline::direct_content_end(sections, &sections[i]);
            proof {
                outline::lemma_direct_end(views, views[i as int], 0, s@.len() as int);
            }
            Ok(insert_block(s, end, &marked))
        },
        Ok(None) => {
            let mut section = text::chars_of("## Comments\n\n");
            text::push_all(&mut section, &marked);
            assert(section@ =~= "## Comments\n\n"@ + COMMENTS_MARKER@ + "\n\n"@ + block@);
            Ok(insert_block(s, s.len(), &section))
        },
    }
}

/// Puts a block into a body where new comments go.
fn extend(s: &[char], document: &document::Document, block: &[char]) -> (r: Result<
    Vec<char>,
    Error,
>)
    requires
        document::is_clean(s@),
        document.bounded(s@.len() as int),
    ensures
        error::agrees(r, extended(s@, document@, block@)),
{
    match &document.registry {
        Some(registry) => Ok(insert_block(s, registry.direct_end, block)),
        None => {
            let none: Vec<Span> = Vec::new();
            assert(none@ =~= Seq::<Span>::empty());
            match document::find_sections(s, &none) {
                None => Err(Error::plain(ErrorKind::ParserRange)),
                Some(sections) => adopt(s, &sections, block),
            }
        },
    }
}

/// The comment with the given values.
pub open spec fn new_comment(
    author: Seq<char>,
    body: Seq<char>,
    id: Seq<char>,
    created_at: Seq<char>,
) -> CommentView {
    CommentView { version: 1, id, author, created_at, body }
}

/// Appends a comment with a given id and creation time.
pub fn append_with(body: &str, author: &str, text: &str, id: &str, created_at: &str) -> (r: Result<
    (String, Comment),
    Error,
>)
    ensures
        error::agrees(r, appended(body@, new_comment(author@, text@, id@, created_at@))),
{
    let comment = Comment {
        version: 1,
        id: text::string_of(&text::chars_of(id)),
        author: text::string_of(&text::chars_of(author)),
        created_at: text::string_of(&text::chars_of(created_at)),
        body: text::string_of(&text::chars_of(text)),
    };
    assert(comment@ =~= new_comment(author@, text@, id@, created_at@));
    match record::validate_author(&text::chars_of(author)) {
        Ok(_) => {},
        Err(error) => {
            return Err(error);
        },
    }
    match record::validate_id(&text::chars_of(id)) {
        Ok(_) => {},
        Err(error) => {
            return Err(error);
        },
    }
    match record::validate_timestamp(&text::chars_of(created_at)) {
        Ok(_) => {},
        Err(error) => {
            return Err(error);
        },
    }
    if text::blank(&text::chars_of(text)) {
        return Err(Error::plain(ErrorKind::EmptyText));
    }
    let source = Source::of(body);
    let document = match document::parse_document(&source.chars) {
        Ok(document) => document,
        Err(error) => {
            return Err(error);
        },
    };
    let block = match render_comment(&comment) {
        Ok(block) => text::chars_of(&block),
        Err(error) => {
            return Err(error);
        },
    };
    let updated = match extend(&source.chars, &document, &block) {
        Ok(updated) => text::string_of(&updated),
        Err(error) => {
            return Err(error);
        },
    };
    match validate(&updated) {
        Ok(_) => Ok((updated, comment)),
        Err(error) => Err(error),
    }
}

/// Whether a result is that of appending a comment with some new id, at some time.
pub open spec fn appended_now(
    s: Seq<char>,
    author: Seq<char>,
    body: Seq<char>,
    result: Result<(String, Comment), Error>,
) -> bool {
    exists|uuid: u128, time: Seq<char>| #[trigger]
        appended_as(s, author, body, uuid, time, result)
}

/// Whether a result is that of appending a comment with the id of a UUID, at a time.
pub open spec fn appended_as(
    s: Seq<char>,
    author: Seq<char>,
    body: Seq<char>,
    uuid: u128,
    time: Seq<char>,
    result: Result<(String, Comment), Error>,
) -> bool {
    let id = record::COMMENT_ID_PREFIX@ + outside::hyphenated(uuid);
    &&& outside::version_field(uuid) == 7
    &&& outside::is_utc(time, 24)
    &&& error::agrees(result, appended(s, new_comment(author, body, id, time)))
}

/// Whether a result is that of appending a comment now: by the author without surrounding white
/// space, with the text without the line endings around it.
pub open spec fn is_appended(
    s: Seq<char>,
    author: Seq<char>,
    text: Seq<char>,
    result: Result<(String, Comment), Error>,
) -> bool {
    let body = text::trim_both(text, CharClass::LineEnd);
    match record::author_of(author) {
        Err(failure) => result matches Err(error) && error@ == failure,
        Ok(name) => if text::is_blank(body) {
            result matches Err(error) && error@ == error::plain(ErrorKind::EmptyText)
        } else {
            appended_now(s, name, body, result)
        },
    }
}

/// Appends one comment and gives the updated body and the comment.
///
/// The id and the creation time are made inside this call: call it while the card is locked.
pub fn append(body: &str, author: &str, text: &str) -> (r: Result<(String, Comment), Error>)
    ensures
        is_appended(body@, author@, text@, r),
{
    let author = match record::normalized_author(author) {
        Ok(author) => author,
        Err(error) => {
            return Err(error);
        },
    };
    let chars = text::chars_of(text);
    let text = text::trimmed(&chars, CharClass::LineEnd);
    if text::blank(text) {
        return Err(Error::plain(ErrorKind::EmptyText));
    }
    let uuid = outside::new_uuid();
    let id = text::string_of(&record::canonical_id(uuid));
    let created_at = outside::timestamp();
    let text = text::string_of(text);
    let r = append_with(body, &author, &text, &id, &created_at);
    assert(appended_as(body@, author@, text@, uuid, created_at@, r));
    r
}

/// The author in an environment variable.
#[derive(Clone, Debug, PartialEq, Eq)]
pub enum AuthorVariable {
    /// The variable is not set.
    Absent,
    /// The variable holds no text.
    NotUnicode,
    /// The variable holds a text.
    Value(String),
}

/// The author that counts: the one given on the command line, else that of the environment, else
/// that of Git. One that is refused never makes way for the next.
pub open spec fn author_from(
    explicit: Option<Seq<char>>,
    variable: AuthorVariable,
    git: Option<Seq<char>>,
) -> Result<Seq<char>, Failure> {
    match explicit {
        Some(author) => match record::author_of(author) {
            Ok(name) => Ok(name),
            Err(failure) => Err(error::about(ErrorKind::ExplicitAuthor, error::told(failure))),
        },
        None => match variable {
            AuthorVariable::Value(author) => match record::author_of(author@) {
                Ok(name) => Ok(name),
                Err(failure) => Err(
                    error::about(ErrorKind::EnvironmentAuthor, error::told(failure)),
                ),
            },
            AuthorVariable::NotUnicode => Err(error::plain(ErrorKind::EnvironmentNotUnicode)),
            AuthorVariable::Absent => match git {
                Some(author) => match record::author_of(author) {
                    Ok(name) => Ok(name),
                    Err(failure) => Err(error::about(ErrorKind::GitAuthor, error::told(failure))),
                },
                None => Err(error::plain(ErrorKind::NoAuthor)),
            },
        },
    }
}

/// A text of an optional string.
pub open spec fn optional_text(value: Option<&str>) -> Option<Seq<char>> {
    match value {
        Some(value) => Some(value@),
        None => None,
    }
}

/// Wraps why an author is refused.
fn refused(kind: ErrorKind, error: &Error) -> (r: Error)
    ensures
        r@ == error::about(kind, error::told(error@)),
{
    let told = error.message();
    Error::about(kind, &text::chars_of(&told))
}

/// Chooses the author of a comment.
pub fn resolve_author(
    explicit: Option<&str>,
    variable: &AuthorVariable,
    git: Option<&str>,
) -> (r: Result<String, Error>)
    ensures
        error::agrees(r, author_from(optional_text(explicit), *variable, optional_text(git))),
{
    if let Some(author) = explicit {
        return match record::normalized_author(author) {
            Ok(name) => Ok(name),
            Err(error) => Err(refused(ErrorKind::ExplicitAuthor, &error)),
        };
    }
    match variable {
        AuthorVariable::Value(author) => match record::normalized_author(author) {
            Ok(name) => Ok(name),
            Err(error) => Err(refused(ErrorKind::EnvironmentAuthor, &error)),
        },
        AuthorVariable::NotUnicode => Err(Error::plain(ErrorKind::EnvironmentNotUnicode)),
        AuthorVariable::Absent => match git {
            Some(author) => match record::normalized_author(author) {
                Ok(name) => Ok(name),
                Err(error) => Err(refused(ErrorKind::GitAuthor, &error)),
            },
            None => Err(Error::plain(ErrorKind::NoAuthor)),
        },
    }
}

/// Takes the line ending off what Git prints for a configured name.
pub fn git_name(output: &str) -> (r: String)
    ensures
        r@ == text::trim_end(output@, CharClass::LineEnd),
{
    let chars = text::chars_of(output);
    text::string_of(text::without_trail(&chars, CharClass::LineEnd))
}

proof fn lemma_headings_bounded(
    s: Seq<char>,
    spans: Seq<Span>,
    excluded: Seq<Span>,
    i: int,
    read: Seq<outline::HeadingView>,
)
    requires
        s.len() <= usize::MAX,
        outline::all_lie_in(spans, s.len() as int),
        outline::headings_bounded(read, s.len() as int),
        0 <= i,
    ensures
        outline::headings_bounded(
            document::headings_from(s, spans, excluded, i, read),
            s.len() as int,
        ),
    decreases spans.len() - i,
{
    if i < spans.len() {
        assert(outline::lies_in(spans[i], s.len() as int));
        let at = spans[i].start as int;
        text::lemma_line_start(s, at);
        text::lemma_line_end(s, text::line_start(s, at));
        if outline::covered(excluded, at) {
            lemma_headings_bounded(s, spans, excluded, i + 1, read);
        } else if let Some(heading) = document::heading_at(s, at) {
            lemma_headings_bounded(s, spans, excluded, i + 1, read.push(heading));
        } else {
            lemma_headings_bounded(s, spans, excluded, i + 1, read);
        }
    }
}

/// The sections of the comments reader lie in the body.
pub proof fn lemma_sections_bounded(s: Seq<char>, excluded: Seq<Span>)
    requires
        source::fits(s),
    ensures
        document::structural_sections(s, excluded) matches Some(sections) ==> outline::bounded(
            sections,
            s.len() as int,
        ),
{
    document::lemma_fits_len(s);
    if let Some(spans) = document::found_outside(s, excluded, outside::MarkKind::Heading) {
        document::lemma_located_lie_in(
            s,
            outside::commonmark(outline::masked(s, excluded)),
            outside::MarkKind::Heading,
        );
        lemma_headings_bounded(s, spans, excluded, 0, Seq::empty());
        outline::lemma_bounded(
            document::headings_from(s, spans, excluded, 0, Seq::empty()),
            s.len() as usize,
        );
    }
}

/// What is put in before the first block of a body without a registry, given its sections.
pub open spec fn opening(sections: Seq<RegionView>) -> Seq<char> {
    match outline::only_titled(sections, "Comments"@) {
        Ok(Some(_)) => COMMENTS_MARKER@ + "\n\n"@,
        _ => "## Comments\n\n"@ + COMMENTS_MARKER@ + "\n\n"@,
    }
}

/// Where the block of a new comment begins in the body that it was put into.
pub open spec fn new_place(s: Seq<char>, document: document::DocumentView) -> int {
    match document.registry {
        Some(registry) => registry.direct_end + gap_behind(
            s.take(registry.direct_end as int),
        ).len(),
        None => {
            let sections = document::structural_sections(s, Seq::empty())->0;
            let at = match outline::only_titled(sections, "Comments"@) {
                Ok(Some(i)) => outline::direct_end(sections, sections[i], 0) as int,
                _ => s.len() as int,
            };
            at + gap_behind(s.take(at)).len() + opening(sections).len()
        },
    }
}

/// Where a new comment goes lies in the body.
pub proof fn lemma_extended(s: Seq<char>, document: document::DocumentView, block: Seq<char>) -> (r: (
    int,
    Seq<char>,
))
    requires
        source::fits(s),
        document::document(s) == Ok::<document::DocumentView, Failure>(document),
        extended(s, document, block) is Ok,
    ensures
        0 <= r.0 <= s.len(),
        text::finishes(r.1, block),
        extended(s, document, block)->Ok_0 == inserted(s, r.0, r.1),
        r.0 + gap_behind(s.take(r.0)).len() + (r.1.len() - block.len()) == new_place(s, document),
{
    match document.registry {
        Some(registry) => {
            assert(block.subrange(0, block.len() as int) =~= block);
            lemma_sections_bounded(s, document.ranges);
            let sections = document::structural_sections(s, document.ranges)->0;
            let marker = document::gathered(
                s,
                document::tokens(s)->Ok_0,
                0,
                document::blank_draft(),
            )->Ok_0.registry->0;
            outline::lemma_deepest(sections, marker.start as int, sections.len());
            outline::lemma_direct_end(sections, registry.section, 0, s.len() as int);
            (registry.direct_end as int, block)
        },
        None => {
            lemma_sections_bounded(s, Seq::empty());
            let sections = document::structural_sections(s, Seq::empty())->0;
            let marked = COMMENTS_MARKER@ + "\n\n"@ + block;
            match outline::only_titled(sections, "Comments"@) {
                Ok(Some(i)) => {
                    lemma_first_titled_in(sections, "Comments"@, 0);
                    outline::lemma_direct_end(sections, sections[i], 0, s.len() as int);
                    assert(marked.subrange(marked.len() - block.len(), marked.len() as int)
                        =~= block);
                    (outline::direct_end(sections, sections[i], 0) as int, marked)
                },
                _ => {
                    let section = "## Comments\n\n"@ + COMMENTS_MARKER@ + "\n\n"@ + block;
                    assert(section.subrange(section.len() - block.len(), section.len() as int)
                        =~= block);
                    (s.len() as int, section)
                },
            }
        },
    }
}

proof fn lemma_first_titled_in(sections: Seq<RegionView>, title: Seq<char>, from: int)
    requires
        0 <= from,
    ensures
        outline::first_titled(sections, title, from) matches Some(i) ==> from <= i < sections.len(),
    decreases sections.len() - from,
{
    if from < sections.len() && !outline::titled(sections[from], title) {
        lemma_first_titled_in(sections, title, from + 1);
    }
}

/// Whether a body is another one with a text put in at one place.
pub open spec fn is_extension(before: Seq<char>, at: int, added: Seq<char>, after: Seq<char>) -> bool {
    0 <= at <= before.len() && after == before.take(at) + added + before.skip(at)
}

/// The text that is put in with a block, and that it holds the block.
proof fn lemma_inserted(s: Seq<char>, at: int, inner: Seq<char>, block: Seq<char>) -> (added: Seq<
    char,
>)
    requires
        0 <= at <= s.len(),
        text::finishes(inner, block),
    ensures
        is_extension(s, at, added, inserted(s, at, inner)),
        text::occurs(added, block),
{
    let gap = gap_behind(s.take(at));
    let tail = gap_before(s.skip(at));
    let added = gap + inner + tail;
    assert(inserted(s, at, inner) =~= s.take(at) + added + s.skip(at));
    let skipped = inner.len() - block.len();
    let start = gap.len() + skipped;
    assert forall|k: int| 0 <= k < block.len() implies added.subrange(
        start,
        start + block.len(),
    )[k] == block[k] by {
        assert(inner.subrange(skipped, skipped + block.len())[k] == block[k]);
    }
    assert(added.subrange(start, start + block.len()) =~= block);
    assert(text::occurs_at(added, block, start));
    added
}

/// Comments are append-only: a new comment leaves every character of the body in its place before or
/// behind one added text, the block of the comment is in that text, and the comments of the result
/// are in order.
pub proof fn appending_only_adds(s: Seq<char>, comment: CommentView)
    requires
        source::fits(s),
        appended(s, comment) is Ok,
    ensures
        appended(s, comment)->Ok_0.1 == comment,
        document::document(appended(s, comment)->Ok_0.0) is Ok,
        exists|at: int, added: Seq<char>| #[trigger]
            is_extension(s, at, added, appended(s, comment)->Ok_0.0) && text::occurs(
                added,
                rendered(comment)->0,
            ),
{
    let found = document::document(s)->Ok_0;
    let block = rendered(comment)->0;
    let updated = appended(s, comment)->Ok_0.0;
    assert(extended(s, found, block) == Ok::<Seq<char>, Failure>(updated));
    let (at, inner) = lemma_extended(s, found, block);
    let added = lemma_inserted(s, at, inner, block);
    assert(is_extension(s, at, added, updated));
}

/// Whether a line can stand in metadata: it neither ends the record nor looks like a marker.
pub open spec fn is_metadata_line(line: Seq<char>) -> bool {
    !text::occurs(line, "-->"@) && !text::begins(line, "<!-- kbmd:comment"@)
}

proof fn lemma_record_skips(p: Seq<char>, q: Seq<char>, r: Seq<char>, k: int)
    requires
        0 <= k <= q.len(),
        0 < p.len(),
        q.last() == '\n',
        k < q.len() ==> text::begins_line(q, k),
        forall|i: int|
            0 <= i < q.len() && text::begins_line(q, i) ==> is_metadata_line(
                #[trigger] text::line_at(q, i),
            ),
    ensures
        record::record_from(p + q + r, 0, p.len() + k) == record::record_from(
            p + q + r,
            0,
            (p.len() + q.len()) as int,
        ),
    decreases q.len() - k,
{
    if k < q.len() {
        text::lemma_line_shift(p, q, r, k);
        let line = text::line_at(q, k);
        assert(is_metadata_line(line));
        if line == "-->"@ {
            assert(line.subrange(0, line.len() as int) =~= line);
            assert(text::occurs_at(line, "-->"@, 0));
        }
        lemma_record_skips(p, q, r, text::line_end(q, k));
    }
}

proof fn lemma_end_skips(p: Seq<char>, q: Seq<char>, r: Seq<char>, k: int, id: Seq<char>)
    requires
        0 <= k <= q.len(),
        q.last() == '\n',
        k < q.len() ==> text::begins_line(q, k),
        forall|i: int|
            0 <= i < q.len() && text::begins_line(q, i) ==> #[trigger] text::line_at(q, i)
                != record::end_marker(id),
    ensures
        record::end_from(p + q + r, p.len() + k, id) == record::end_from(
            p + q + r,
            (p.len() + q.len()) as int,
            id,
        ),
    decreases q.len() - k,
{
    if k < q.len() {
        text::lemma_line_shift(p, q, r, k);
        lemma_end_skips(p, q, r, text::line_end(q, k), id);
    }
}

/// The visible part of a block, between its start record and its end marker.
pub open spec fn visible(comment: CommentView) -> Seq<char> {
    record::attribution(comment.author, comment.created_at) + "\n\n"@ + comment.body + "\n\n"@
}

/// The metadata of a comment.
pub open spec fn meta_view(comment: CommentView) -> record::MetaView {
    record::MetaView {
        version: comment.version,
        id: comment.id,
        author: comment.author,
        created_at: comment.created_at,
    }
}

/// Whether a line ends where a text begins.
pub open spec fn ends_line(after: Seq<char>) -> bool {
    ||| after.len() == 0
    ||| after[0] == '\n'
    ||| after.len() >= 2 && after[0] == '\r' && after[1] == '\n'
}

/// Whether a text has no line ending in it.
pub open spec fn is_one_line(s: Seq<char>) -> bool {
    forall|i: int| 0 <= i < s.len() ==> !text::in_class(CharClass::LineEnd, #[trigger] s[i])
}

proof fn lemma_escaped_one_line(s: Seq<char>, n: nat)
    requires
        is_one_line(s),
    ensures
        is_one_line(record::escaped(s, n)),
    decreases n,
{
    if n > 0 && n <= s.len() {
        lemma_escaped_one_line(s, (n - 1) as nat);
    }
}

/// What stands between the control records of a block gives back the comment: its attribution is
/// that of the metadata, and its text is the one that was written.
pub proof fn visible_text_gives_back_the_comment(comment: CommentView)
    requires
        is_one_line(comment.author),
        is_one_line(comment.created_at),
        !text::is_blank(comment.body),
        !text::in_class(CharClass::LineEnd, comment.body.last()),
        document::text_check(comment.body, comment.id) is Ok,
    ensures
        document::comment_in(visible(comment), meta_view(comment)) == Ok::<CommentView, Failure>(
            comment,
        ),
{
    let shown = record::attribution(comment.author, comment.created_at);
    let body = comment.body;
    let content = visible(comment);
    reveal_strlit("Comment by **");
    reveal_strlit("** · ");
    reveal_strlit("\n\n");
    lemma_escaped_one_line(comment.author, comment.author.len());
    assert(is_one_line(shown));
    assert(body.len() > 0);
    assert(shown[0] == 'C');
    text::lemma_lead(content, CharClass::LineEnd, 0);
    assert(text::trim_start(content, CharClass::LineEnd) =~= content);
    let inner = shown + "\n\n"@ + body;
    assert(content =~= inner + "\n\n"@);
    text::lemma_trail(content, CharClass::LineEnd, 2);
    assert(text::trim_both(content, CharClass::LineEnd) =~= inner);
    assert(inner[shown.len() as int] == '\n');
    text::lemma_next_index(inner, '\n', 0, shown.len() as int);
    assert(inner.take(shown.len() as int) =~= shown);
    text::lemma_trail(shown, CharClass::Return, 0);
    assert(text::trim_end(shown, CharClass::Return) =~= shown);
    let rest = inner.skip(shown.len() as int + 1);
    assert(rest[0] == '\n');
    if text::begins(rest, seq!['\r', '\n']) {
        assert(rest.subrange(0, 2)[0] == '\r');
    }
    assert(rest.subrange(0, 1) =~= seq!['\n']);
    assert(rest.skip(1) =~= body);
    text::lemma_trail(body, CharClass::LineEnd, 0);
    assert(text::trim_end(body, CharClass::LineEnd) =~= body);
}

/// The start record of a block.
proof fn lemma_record_read(first: Seq<char>, lines: Seq<char>, rest: Seq<char>)
    requires
        first == COMMENT_START@ + "\n"@,
        lines.len() > 0,
        lines.last() == '\n',
        (first + lines + ("-->\n"@ + rest)).len() <= usize::MAX,
        forall|i: int|
            0 <= i < lines.len() && text::begins_line(lines, i) ==> is_metadata_line(
                #[trigger] text::line_at(lines, i),
            ),
    ensures
        ({
            let s = first + lines + ("-->\n"@ + rest);
            let opening = Span { start: 0, end: (first.len() + lines.len() + 4) as usize };
            &&& record::record_from(s, 0, 0) == Ok::<Span, Failure>(opening)
            &&& document::source_of(s, opening) == first + lines + "-->"@
        }),
{
    let terminator = "-->\n"@;
    let s = first + lines + (terminator + rest);
    reveal_strlit("-->");
    reveal_strlit("-->\n");
    reveal_strlit("\n");
    assert(s =~= first + (lines + (terminator + rest)));
    lemma_first_line(first, lines + (terminator + rest));
    lemma_record_skips(first, lines, terminator + rest, 0);
    assert(s =~= (first + lines) + terminator + rest);
    text::lemma_line_shift(first + lines, terminator, rest, 0);
    text::lemma_next_index(terminator, '\n', 0, 3);
    assert(terminator.subrange(0, 4) =~= terminator);
    assert(text::finishes(terminator, seq!['\n'])) by {
        assert(terminator.subrange(3, 4) =~= seq!['\n']);
    }
    assert(!text::finishes(terminator, seq!['\r', '\n'])) by {
        assert(terminator.subrange(2, 4)[0] == '>');
    }
    assert(terminator.take(3) =~= "-->"@);
    let at = (first.len() + lines.len()) as int;
    assert(text::line_at(s, at) == "-->"@);
    let opening = Span { start: 0, end: (at + 4) as usize };
    assert(record::record_from(s, 0, at) == Ok::<Span, Failure>(opening));
    let record = s.subrange(0, at + 4);
    assert(record =~= first + lines + terminator);
    text::lemma_trail(record, CharClass::LineEnd, 1);
    assert(record.take(at + 3) =~= first + lines + "-->"@);
}

/// The end marker of a block.
proof fn lemma_end_read(p: Seq<char>, content: Seq<char>, after: Seq<char>, id: Seq<char>)
    requires
        content.len() > 0,
        content.last() == '\n',
        is_one_line(id),
        ends_line(after),
        forall|i: int|
            0 <= i < content.len() && text::begins_line(content, i) ==>
                #[trigger] text::line_at(content, i) != record::end_marker(id),
    ensures
        ({
            let s = p + content + (record::end_marker(id) + after);
            let at = (p.len() + content.len()) as int;
            record::end_from(s, p.len() as int, id) == Ok::<Span, Failure>(
                Span { start: at as usize, end: text::line_end(s, at) as usize },
            )
        }),
{
    let marker = record::end_marker(id);
    let s = p + content + (marker + after);
    lemma_end_skips(p, content, marker + after, 0, id);
    reveal_strlit("<!-- kbmd:comment:end ");
    reveal_strlit(" -->");
    assert(COMMENT_END_PREFIX@ == "<!-- kbmd:comment:end "@);
    assert(is_one_line(COMMENT_END_PREFIX@));
    assert(is_one_line(" -->"@));
    assert(is_one_line(marker));
    lemma_last_line(p + content, marker, after);
    assert(s =~= (p + content) + marker + after);
}

/// The parts of a block and what follows it, put together in two ways.
proof fn lemma_block_parts(comment: CommentView, yaml: Seq<char>, after: Seq<char>)
    ensures
        ({
            let first = COMMENT_START@ + "\n"@;
            let lines = yaml + "\n"@;
            let tail = record::end_marker(comment.id) + after;
            &&& block(comment, yaml) + after == first + lines + ("-->\n"@ + (visible(comment)
                + tail))
            &&& block(comment, yaml) + after == (first + lines + "-->\n"@) + visible(comment) + tail
            &&& first + lines + "-->"@ == COMMENT_START@ + "\n"@ + yaml + "\n"@ + "-->"@
            &&& (COMMENT_START@ + "\n"@ + yaml + "\n-->\n"@).len() == first.len() + lines.len() + 4
            &&& (first + lines + "-->\n"@).len() == first.len() + lines.len() + 4
        }),
{
    let first = COMMENT_START@ + "\n"@;
    let lines = yaml + "\n"@;
    let shown = record::attribution(comment.author, comment.created_at);
    let tail = record::end_marker(comment.id) + after;
    reveal_strlit("\n");
    reveal_strlit("-->\n");
    reveal_strlit("\n-->\n");
    assert("\n-->\n"@ =~= "\n"@ + "-->\n"@);
    let s = block(comment, yaml) + after;
    let head = COMMENT_START@ + "\n"@ + yaml + ("\n"@ + "-->\n"@);
    assert(s == head + shown + "\n\n"@ + comment.body + "\n\n"@ + record::end_marker(comment.id)
        + after);
    assert(s =~= head + visible(comment) + tail);
    assert(head =~= first + lines + "-->\n"@);
    assert(s =~= first + lines + ("-->\n"@ + (visible(comment) + tail)));
    assert(first + lines + "-->"@ =~= COMMENT_START@ + "\n"@ + yaml + "\n"@ + "-->"@);
}

/// A block that stands alone in its lines is read as it was written: its start record, its metadata,
/// its end marker and what is between them.
#[verifier::spinoff_prover]
pub proof fn a_block_is_read_as_written(comment: CommentView, yaml: Seq<char>, after: Seq<char>)
    requires
        (block(comment, yaml) + after).len() <= usize::MAX,
        ends_line(after),
        is_one_line(comment.id),
        forall|i: int|
            0 <= i < (yaml + "\n"@).len() && text::begins_line(yaml + "\n"@, i) ==>
                is_metadata_line(#[trigger] text::line_at(yaml + "\n"@, i)),
        record::record_metadata(COMMENT_START@ + "\n"@ + yaml + "\n"@ + "-->"@) == Ok::<
            record::MetaView,
            Failure,
        >(meta_view(comment)),
        forall|i: int|
            0 <= i < visible(comment).len() && text::begins_line(visible(comment), i) ==>
                #[trigger] text::line_at(visible(comment), i) != record::end_marker(comment.id),
    ensures
        ({
            let s = block(comment, yaml) + after;
            let start = (COMMENT_START@ + "\n"@ + yaml + "\n-->\n"@).len();
            let end = start + visible(comment).len();
            &&& document::block_at(s, 0) == Ok::<(record::MetaView, Span, Span), Failure>(
                (
                    meta_view(comment),
                    Span { start: 0, end: start as usize },
                    Span { start: end as usize, end: text::line_end(s, end as int) as usize },
                ),
            )
            &&& s.subrange(start as int, end as int) == visible(comment)
        }),
{
    let s = block(comment, yaml) + after;
    let first = COMMENT_START@ + "\n"@;
    let lines = yaml + "\n"@;
    let content = visible(comment);
    let marker = record::end_marker(comment.id);
    let head = first + lines + "-->\n"@;
    lemma_block_parts(comment, yaml, after);
    reveal_strlit("\n");
    reveal_strlit("\n\n");
    lemma_record_read(first, lines, content + (marker + after));
    lemma_end_read(head, content, after, comment.id);
    let start = head.len() as int;
    assert(s.subrange(start, start + content.len()) =~= content);
}

/// The first line of a block.
proof fn lemma_first_line(first: Seq<char>, rest: Seq<char>)
    requires
        first == COMMENT_START@ + "\n"@,
    ensures
        text::line_at(first + rest, 0) == COMMENT_START@,
        text::line_end(first + rest, 0) == first.len(),
{
    reveal_strlit("\n");
    reveal_strlit("<!-- kbmd:comment:v1");
    assert(COMMENT_START@ == "<!-- kbmd:comment:v1"@);
    assert(first + rest =~= Seq::<char>::empty() + first + rest);
    text::lemma_line_shift(Seq::empty(), first, rest, 0);
    let n = COMMENT_START@.len() as int;
    text::lemma_next_index(first, '\n', 0, n);
    assert(first.subrange(0, n + 1) =~= first);
    assert(text::finishes(first, seq!['\n'])) by {
        assert(first.subrange(n, n + 1) =~= seq!['\n']);
    }
    assert(!text::finishes(first, seq!['\r', '\n'])) by {
        assert(first.subrange(n - 1, n + 1)[0] == first[n - 1]);
        assert(first[n - 1] == '1');
    }
    assert(first.take(n) =~= COMMENT_START@);
}

/// The last line of a block.
proof fn lemma_last_line(p: Seq<char>, marker: Seq<char>, after: Seq<char>)
    requires
        is_one_line(marker),
        marker.len() > 0,
        ends_line(after),
    ensures
        text::line_at(p + marker + after, p.len() as int) == marker,
{
    let s = p + marker + after;
    let start = p.len() as int;
    let n = marker.len() as int;
    let stop = start + n;
    assert forall|i: int| start <= i < stop implies #[trigger] s[i] != '\n' by {
        assert(s[i] == marker[i - start]);
    }
    if after.len() == 0 {
        text::lemma_next_index(s, '\n', start, stop);
        let line = s.subrange(start, text::line_end(s, start));
        assert(line =~= marker);
        if text::finishes(line, seq!['\n']) {
            assert(line.subrange(n - 1, n)[0] == '\n');
        }
        if text::finishes(line, seq!['\r', '\n']) {
            assert(line.subrange(n - 2, n)[1] == '\n');
        }
    } else if after[0] == '\n' {
        text::lemma_next_index(s, '\n', start, stop);
        let line = s.subrange(start, text::line_end(s, start));
        assert(line =~= marker.push('\n'));
        assert(line.subrange(n, n + 1) =~= seq!['\n']);
        if text::finishes(line, seq!['\r', '\n']) {
            assert(line.subrange(n - 1, n + 1)[0] == '\r');
            assert(text::in_class(CharClass::LineEnd, marker[n - 1]));
        }
        assert(line.take(n) =~= marker);
    } else {
        assert(s[stop] == '\r');
        assert(s[stop + 1] == '\n');
        text::lemma_next_index(s, '\n', start, stop + 1);
        let line = s.subrange(start, text::line_end(s, start));
        assert(line =~= marker.push('\r').push('\n'));
        assert(line.subrange(n, n + 2) =~= seq!['\r', '\n']);
        assert(line.take(n) =~= marker);
    }
}

/// A span of a text, in that text behind another one.
pub open spec fn span_behind(span: Span, by: nat) -> Span {
    Span { start: (span.start + by) as usize, end: (span.end + by) as usize }
}

/// A start record behind another text is the one of the text that it lies in.
proof fn lemma_record_behind(p: Seq<char>, s: Seq<char>, start: int, at: int)
    requires
        0 <= start <= at <= s.len(),
        (p + s).len() <= usize::MAX,
    ensures
        record::record_from(p + s, p.len() + start, p.len() + at) == (match record::record_from(
            s,
            start,
            at,
        ) {
            Ok(span) => Ok::<Span, Failure>(span_behind(span, p.len())),
            Err(failure) => Err::<Span, Failure>(failure),
        }),
    decreases s.len() - at,
{
    if at < s.len() {
        text::lemma_line_behind(p, s, at);
        lemma_record_behind(p, s, start, text::line_end(s, at));
    }
}

/// An end marker behind another text is the one of the text that it lies in.
proof fn lemma_end_behind(p: Seq<char>, s: Seq<char>, at: int, id: Seq<char>)
    requires
        0 <= at <= s.len(),
        (p + s).len() <= usize::MAX,
    ensures
        record::end_from(p + s, p.len() + at, id) == (match record::end_from(s, at, id) {
            Ok(span) => Ok::<Span, Failure>(span_behind(span, p.len())),
            Err(failure) => Err::<Span, Failure>(failure),
        }),
    decreases s.len() - at,
{
    if at < s.len() {
        text::lemma_line_behind(p, s, at);
        lemma_end_behind(p, s, text::line_end(s, at), id);
    }
}

/// Whether the block that begins at an index gives back a comment: its start record and its end marker
/// are read, and its metadata and what is between them are those of the comment.
pub open spec fn gives_back(s: Seq<char>, at: int, comment: CommentView) -> bool {
    document::block_at(s, at) matches Ok((meta, opening, closing)) && document::comment_in(
        s.subrange(opening.end as int, closing.start as int),
        meta,
    ) == Ok::<CommentView, Failure>(comment)
}

/// Whether the YAML text of the metadata of a comment is read as it was written.
pub open spec fn is_faithful(comment: CommentView, yaml: Seq<char>) -> bool {
    &&& forall|i: int|
        0 <= i < (yaml + "\n"@).len() && text::begins_line(yaml + "\n"@, i) ==> is_metadata_line(
            #[trigger] text::line_at(yaml + "\n"@, i),
        )
    &&& record::record_metadata(COMMENT_START@ + "\n"@ + yaml + "\n"@ + "-->"@) == Ok::<
        record::MetaView,
        Failure,
    >(meta_view(comment))
}

/// Whether the text of a comment can stand between its records: it ends with neither a line ending
/// nor holds its own end marker or anything else that a text must not.
pub open spec fn is_writable(comment: CommentView) -> bool {
    &&& is_one_line(comment.id)
    &&& is_one_line(comment.author)
    &&& is_one_line(comment.created_at)
    &&& !text::is_blank(comment.body)
    &&& !text::in_class(CharClass::LineEnd, comment.body.last())
    &&& document::text_check(comment.body, comment.id) is Ok
    &&& forall|i: int|
        0 <= i < visible(comment).len() && text::begins_line(visible(comment), i) ==>
            #[trigger] text::line_at(visible(comment), i) != record::end_marker(comment.id)
}

/// A block gives back its comment, whatever stands before it and in the lines behind it.
pub proof fn a_block_gives_back_its_comment(
    before: Seq<char>,
    comment: CommentView,
    yaml: Seq<char>,
    after: Seq<char>,
)
    requires
        (before + (block(comment, yaml) + after)).len() <= usize::MAX,
        ends_line(after),
        is_faithful(comment, yaml),
        is_writable(comment),
    ensures
        gives_back(before + (block(comment, yaml) + after), before.len() as int, comment),
{
    let s = block(comment, yaml) + after;
    let whole = before + s;
    let by = before.len();
    a_block_is_read_as_written(comment, yaml, after);
    visible_text_gives_back_the_comment(comment);
    let (meta, opening, closing) = document::block_at(s, 0)->Ok_0;
    text::lemma_line_end(s, closing.start as int);
    lemma_record_behind(before, s, 0, 0);
    lemma_end_behind(before, s, opening.end as int, meta.id);
    let moved = span_behind(opening, by);
    assert(whole.subrange(moved.start as int, moved.end as int) =~= s.subrange(
        opening.start as int,
        opening.end as int,
    ));
    assert(whole.subrange(moved.end as int, by + closing.start) =~= s.subrange(
        opening.end as int,
        closing.start as int,
    ));
}

/// A comment that was appended is given back by the block at the place where it was put.
pub proof fn an_appended_comment_is_given_back(s: Seq<char>, comment: CommentView, yaml: Seq<char>)
    requires
        source::fits(s),
        appended(s, comment) is Ok,
        appended(s, comment)->Ok_0.0.len() <= usize::MAX,
        rendered(comment) == Some(block(comment, yaml)),
        is_faithful(comment, yaml),
        is_writable(comment),
    ensures
        exists|at: int|
            text::occurs_at(appended(s, comment)->Ok_0.0, block(comment, yaml), at)
                && #[trigger] gives_back(appended(s, comment)->Ok_0.0, at, comment),
{
    let found = document::document(s)->Ok_0;
    let written = block(comment, yaml);
    let updated = appended(s, comment)->Ok_0.0;
    assert(extended(s, found, written) == Ok::<Seq<char>, Failure>(updated));
    let (at, inner) = lemma_extended(s, found, written);
    let (before, after) = lemma_inserted_parts(s, at, inner, written);
    a_block_gives_back_its_comment(before, comment, yaml, after);
    assert(gives_back(updated, before.len() as int, comment));
}

/// What stands before and behind a block that was put in.
pub proof fn lemma_inserted_parts(s: Seq<char>, at: int, inner: Seq<char>, block: Seq<char>) -> (r: (
    Seq<char>,
    Seq<char>,
))
    requires
        0 <= at <= s.len(),
        text::finishes(inner, block),
    ensures
        inserted(s, at, inner) == r.0 + (block + r.1),
        ends_line(r.1),
        text::occurs_at(inserted(s, at, inner), block, r.0.len() as int),
        r.0.len() == at + gap_behind(s.take(at)).len() + (inner.len() - block.len()),
{
    let skipped = inner.len() - block.len();
    let rest = s.skip(at);
    let before = s.take(at) + gap_behind(s.take(at)) + inner.take(skipped);
    let after = gap_before(rest) + rest;
    assert(inner =~= inner.take(skipped) + block) by {
        assert(inner.subrange(skipped, inner.len() as int) == block);
    }
    let whole = inserted(s, at, inner);
    assert(whole =~= before + (block + after));
    let start = before.len() as int;
    assert(whole.subrange(start, start + block.len()) =~= block);
    reveal_strlit("\n");
    reveal_strlit("\n\n");
    reveal_strlit("\r\n\r\n");
    if text::begins(rest, "\n\n"@) {
        assert(rest.subrange(0, 2)[0] == '\n');
    }
    if text::begins(rest, "\r\n\r\n"@) {
        assert(rest.subrange(0, 4)[0] == '\r');
        assert(rest.subrange(0, 4)[1] == '\n');
    }
    (before, after)
}

} // verus!
