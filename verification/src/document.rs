//! Reading the comments in a body: control records, blocks and the section that holds them.

use crate::error;
use crate::error::{Error, ErrorKind, Failure};
use crate::outline;
use crate::outline::{Heading, HeadingView, Region, RegionView, Span};
use crate::outside;
use crate::outside::{MarkKind, RawMark};
use crate::record;
use crate::record::{Meta, MetaView, COMMENTS_MARKER, COMMENT_END_PREFIX, COMMENT_START};
use crate::source;
use crate::source::Source;
use crate::text;
use crate::text::CharClass;
use vstd::prelude::*;
use vstd::slice::slice_subrange;


verus! {

/// A comment as specifications speak of it.
#[verifier::ext_equal]
pub struct CommentView {
    pub version: u8,
    pub id: Seq<char>,
    pub author: Seq<char>,
    pub created_at: Seq<char>,
    pub body: Seq<char>,
}

/// A comment in document order.
#[derive(Clone, Debug, PartialEq, Eq)]
pub struct Comment {
    pub version: u8,
    pub id: String,
    pub author: String,
    pub created_at: String,
    pub body: String,
}

impl View for Comment {
    type V = CommentView;

    open spec fn view(&self) -> CommentView {
        CommentView {
            version: self.version,
            id: self.id@,
            author: self.author@,
            created_at: self.created_at@,
            body: self.body@,
        }
    }
}

/// The comments in a list.
pub open spec fn comment_views(comments: Seq<Comment>) -> Seq<CommentView> {
    comments.map_values(|c: Comment| c@)
}

/// Whether the Markdown parser can read a text: it has no NUL and no vertical tab.
pub open spec fn is_clean(s: Seq<char>) -> bool {
    forall|i: int| 0 <= i < s.len() ==> #[trigger] s[i] != '\0' && s[i] != '\u{b}'
}

/// Whether the Markdown parser can read a text.
pub fn clean(s: &[char]) -> (r: bool)
    ensures
        r == is_clean(s@),
{
    let mut i: usize = 0;
    while i < s.len()
        invariant
            i <= s@.len(),
            forall|k: int| 0 <= k < i ==> #[trigger] s@[k] != '\0' && s@[k] != '\u{b}',
        decreases s@.len() - i,
    {
        if s[i] == '\0' || s[i] == '\u{b}' {
            return false;
        }
        i += 1;
    }
    true
}

/// The constructs of one kind that the Markdown parser finds in a text.
pub open spec fn found(s: Seq<char>, kind: MarkKind) -> Option<Seq<Span>> {
    outline::located(s, outside::commonmark(s), kind)
}

/// Runs the Markdown parser and takes the constructs of one kind.
fn find_marks(s: &[char], kind: MarkKind) -> (r: Option<Vec<Span>>)
    requires
        is_clean(s@),
    ensures
        match r {
            Some(spans) => found(s@, kind) == Some(spans@) && outline::all_lie_in(
                spans@,
                s@.len() as int,
            ),
            None => found(s@, kind) is None,
        },
{
    let body = text::string_of(s);
    let marks = outside::parse_commonmark(&body);
    outline::locate(&Source::of(&body), &marks, kind)
}

/// Whether a text consists of spaces and tabs.
pub open spec fn only_blanks(s: Seq<char>) -> bool {
    forall|i: int| 0 <= i < s.len() ==> text::in_class(CharClass::Blank, #[trigger] s[i])
}

/// Whether a text consists of spaces and tabs.
fn all_blanks(s: &[char]) -> (r: bool)
    ensures
        r == only_blanks(s@),
{
    let n = text::lead_len(s, CharClass::Blank);
    proof {
        text::lemma_lead_is(s@, CharClass::Blank);
    }
    n == s.len()
}

/// What is in a span, without the line endings behind it.
pub open spec fn source_of(s: Seq<char>, span: Span) -> Seq<char> {
    text::trim_end(s.subrange(span.start as int, span.end as int), CharClass::LineEnd)
}

/// What stands before a span in its line.
pub open spec fn prefix_of(s: Seq<char>, span: Span) -> Seq<char> {
    s.subrange(text::line_start(s, span.start as int), span.start as int)
}

/// Whether a piece of an HTML block is a control marker: it names the comments and only blanks stand
/// before it in its line.
pub open spec fn is_control_marker(s: Seq<char>, span: Span) -> bool {
    text::occurs(source_of(s, span), "kbmd:comment"@) && only_blanks(prefix_of(s, span))
}

/// Whether one of the pieces of HTML blocks is a control marker.
pub open spec fn has_control_marker(s: Seq<char>, spans: Seq<Span>) -> bool {
    exists|i: int| 0 <= i < spans.len() && is_control_marker(s, #[trigger] spans[i])
}

/// Refuses the text of a comment that holds a control marker, given where its HTML blocks are.
pub fn reject_markers(s: &[char], spans: &Vec<Span>, id: &[char]) -> (r: Result<(), Error>)
    requires
        outline::all_lie_in(spans@, s@.len() as int),
    ensures
        error::decides(
            r,
            if has_control_marker(s@, spans@) {
                Err(error::about(ErrorKind::NestedMarker, id@))
            } else {
                Ok(())
            },
        ),
{
    let name = text::chars_of("kbmd:comment");
    let mut i: usize = 0;
    while i < spans.len()
        invariant
            i <= spans@.len(),
            outline::all_lie_in(spans@, s@.len() as int),
            name@ == "kbmd:comment"@,
            forall|k: int| 0 <= k < i ==> !is_control_marker(s@, #[trigger] spans@[k]),
        decreases spans@.len() - i,
    {
        let span = spans[i];
        assert(outline::lies_in(spans@[i as int], s@.len() as int));
        let piece = text::without_trail(
            slice_subrange(s, span.start, span.end),
            CharClass::LineEnd,
        );
        let line_start = text::start_of_line(s, span.start);
        let prefix = slice_subrange(s, line_start, span.start);
        assert(prefix@ == prefix_of(s@, span));
        if text::stands_in(piece, &name) && all_blanks(prefix) {
            assert(is_control_marker(s@, spans@[i as int]));
            return Err(Error::about(ErrorKind::NestedMarker, id));
        }
        i += 1;
    }
    Ok(())
}

/// What is demanded of the text of a comment.
pub open spec fn text_check(s: Seq<char>, id: Seq<char>) -> Result<(), Failure> {
    match found(s, MarkKind::Html) {
        None => Err(error::plain(ErrorKind::ParserRange)),
        Some(spans) => if has_control_marker(s, spans) {
            Err(error::about(ErrorKind::NestedMarker, id))
        } else {
            Ok(())
        },
    }
}

/// Refuses the text of a comment that holds a control marker.
fn reject_active_comment_controls(s: &[char], id: &[char]) -> (r: Result<(), Error>)
    requires
        is_clean(s@),
    ensures
        error::decides(r, text_check(s@, id@)),
{
    match find_marks(s, MarkKind::Html) {
        None => Err(Error::plain(ErrorKind::ParserRange)),
        Some(spans) => reject_markers(s, &spans, id),
    }
}

/// The text of a comment behind its attribution and a blank line.
pub open spec fn body_text(content: Seq<char>) -> Option<Seq<char>> {
    let inner = text::trim_both(content, CharClass::LineEnd);
    let rest = inner.skip(text::next_index(inner, '\n', 0) + 1);
    if text::begins(rest, seq!['\r', '\n']) {
        Some(text::trim_end(rest.skip(2), CharClass::LineEnd))
    } else if text::begins(rest, seq!['\n']) {
        Some(text::trim_end(rest.skip(1), CharClass::LineEnd))
    } else {
        None
    }
}

/// The comment with the given metadata and text.
pub open spec fn comment_of(meta: MetaView, body: Seq<char>) -> CommentView {
    CommentView {
        version: meta.version,
        id: meta.id,
        author: meta.author,
        created_at: meta.created_at,
        body,
    }
}

/// The comment that stands between its start record and its end marker.
pub open spec fn comment_in(content: Seq<char>, meta: MetaView) -> Result<CommentView, Failure> {
    let inner = text::trim_both(content, CharClass::LineEnd);
    let feed = text::next_index(inner, '\n', 0);
    if feed >= inner.len() {
        Err(error::about(ErrorKind::MissingAttribution, meta.id))
    } else if text::trim_end(inner.take(feed), CharClass::Return) != record::attribution(
        meta.author,
        meta.created_at,
    ) {
        Err(error::about(ErrorKind::InvalidAttribution, meta.id))
    } else {
        match body_text(content) {
            None => Err(error::about(ErrorKind::MissingBlankLine, meta.id)),
            Some(body) => if text::is_blank(body) {
                Err(error::about(ErrorKind::EmptyCommentText, meta.id))
            } else {
                match text_check(body, meta.id) {
                    Err(failure) => Err(failure),
                    Ok(_) => Ok(comment_of(meta, body)),
                }
            },
        }
    }
}

proof fn lemma_trim_clean(s: Seq<char>, class: CharClass)
    requires
        is_clean(s),
    ensures
        is_clean(text::trim_end(s, class)),
        is_clean(text::trim_start(s, class)),
{
    text::lemma_trail_is(s, class);
    text::lemma_lead_is(s, class);
}

/// Reads the comment that stands between its start record and its end marker.
fn parse_comment_body(content: &[char], meta: &Meta) -> (r: Result<Comment, Error>)
    requires
        is_clean(content@),
    ensures
        error::agrees(r, comment_in(content@, meta@)),
{
    let inner = text::trimmed(content, CharClass::LineEnd);
    proof {
        lemma_trim_clean(content@, CharClass::LineEnd);
        lemma_trim_clean(text::trim_start(content@, CharClass::LineEnd), CharClass::LineEnd);
    }
    let feed = text::find_char(inner, '\n', 0);
    if feed == inner.len() {
        return Err(Error::about(ErrorKind::MissingAttribution, &meta.id));
    }
    let line = text::without_trail(slice_subrange(inner, 0, feed), CharClass::Return);
    assert(inner@.subrange(0, feed as int) =~= inner@.take(feed as int));
    if !text::same(line, &record::attribution_of(&meta.author, &meta.created_at)) {
        return Err(Error::about(ErrorKind::InvalidAttribution, &meta.id));
    }
    let rest = slice_subrange(inner, feed + 1, inner.len());
    assert(rest@ =~= inner@.skip(feed + 1));
    let skipped: usize = if rest.len() >= 2 && rest[0] == '\r' && rest[1] == '\n' {
        assert(rest@.subrange(0, 2) =~= seq!['\r', '\n']);
        2
    } else {
        proof {
            if text::begins(rest@, seq!['\r', '\n']) {
                assert(rest@.subrange(0, 2)[0] == '\r' && rest@.subrange(0, 2)[1] == '\n');
            }
        }
        if rest.len() >= 1 && rest[0] == '\n' {
            assert(rest@.subrange(0, 1) =~= seq!['\n']);
            1
        } else {
            proof {
                if text::begins(rest@, seq!['\n']) {
                    assert(rest@.subrange(0, 1)[0] == '\n');
                }
            }
            return Err(Error::about(ErrorKind::MissingBlankLine, &meta.id));
        }
    };
    let tail = slice_subrange(rest, skipped, rest.len());
    assert(tail@ =~= rest@.skip(skipped as int));
    let body = text::without_trail(tail, CharClass::LineEnd);
    proof {
        lemma_trim_clean(tail@, CharClass::LineEnd);
    }
    if text::blank(body) {
        return Err(Error::about(ErrorKind::EmptyCommentText, &meta.id));
    }
    match reject_active_comment_controls(body, &meta.id) {
        Ok(_) => {},
        Err(error) => {
            return Err(error);
        },
    }
    Ok(
        Comment {
            version: meta.version,
            id: text::string_of(&meta.id),
            author: text::string_of(&meta.author),
            created_at: text::string_of(&meta.created_at),
            body: text::string_of(body),
        },
    )
}

/// What a piece of an HTML block means.
#[derive(Clone, Copy, Debug, PartialEq, Eq, Structural)]
pub enum Meaning {
    /// Nothing.
    Inert,
    /// It is the registry marker.
    Registry,
    /// It begins a comment.
    Start,
    /// It is refused.
    Refused(ErrorKind),
}

/// What a piece of an HTML block means. Only one that begins its line can be a control record;
/// an indented one is refused.
pub open spec fn meaning(s: Seq<char>, span: Span) -> Meaning {
    let piece = source_of(s, span);
    if text::line_start(s, span.start as int) != span.start {
        if only_blanks(prefix_of(s, span)) && text::occurs(piece, "kbmd:comment"@) {
            Meaning::Refused(ErrorKind::IndentedMarker)
        } else {
            Meaning::Inert
        }
    } else if piece == COMMENTS_MARKER@ {
        Meaning::Registry
    } else if piece == COMMENT_START@ {
        Meaning::Start
    } else if text::begins(piece, COMMENT_START@) {
        Meaning::Refused(ErrorKind::MalformedStart)
    } else if text::begins(piece, COMMENT_END_PREFIX@) {
        Meaning::Refused(ErrorKind::OrphanEnd)
    } else if text::occurs(piece, "kbmd:comment"@) {
        Meaning::Refused(ErrorKind::UnsupportedMarker)
    } else {
        Meaning::Inert
    }
}

/// Tells what a piece of an HTML block means.
pub fn meaning_of(s: &[char], span: Span) -> (r: Meaning)
    requires
        outline::lies_in(span, s@.len() as int),
    ensures
        r == meaning(s@, span),
{
    let piece = text::without_trail(slice_subrange(s, span.start, span.end), CharClass::LineEnd);
    let name = text::chars_of("kbmd:comment");
    let line_start = text::start_of_line(s, span.start);
    if line_start != span.start {
        let prefix = slice_subrange(s, line_start, span.start);
        if all_blanks(prefix) && text::stands_in(piece, &name) {
            Meaning::Refused(ErrorKind::IndentedMarker)
        } else {
            Meaning::Inert
        }
    } else if text::same(piece, &text::chars_of(COMMENTS_MARKER)) {
        Meaning::Registry
    } else if text::same(piece, &text::chars_of(COMMENT_START)) {
        Meaning::Start
    } else if text::stands_at(piece, &text::chars_of(COMMENT_START), 0) {
        Meaning::Refused(ErrorKind::MalformedStart)
    } else if text::stands_at(piece, &text::chars_of(COMMENT_END_PREFIX), 0) {
        Meaning::Refused(ErrorKind::OrphanEnd)
    } else if text::stands_in(piece, &name) {
        Meaning::Refused(ErrorKind::UnsupportedMarker)
    } else {
        Meaning::Inert
    }
}

/// The first piece from `i` on that is not inert.
pub open spec fn first_control(s: Seq<char>, spans: Seq<Span>, i: int) -> Option<int>
    decreases spans.len() - i,
{
    if i < 0 || i >= spans.len() {
        None
    } else if meaning(s, spans[i]) != Meaning::Inert {
        Some(i)
    } else {
        first_control(s, spans, i + 1)
    }
}

/// What `first_control` finds.
pub proof fn lemma_first_control(s: Seq<char>, spans: Seq<Span>, i: int)
    requires
        0 <= i,
    ensures
        match first_control(s, spans, i) {
            Some(k) => i <= k < spans.len() && meaning(s, spans[k]) != Meaning::Inert && (forall|
                j: int,
            |
                i <= j < k ==> meaning(s, #[trigger] spans[j]) == Meaning::Inert),
            None => forall|j: int|
                i <= j < spans.len() ==> meaning(s, #[trigger] spans[j]) == Meaning::Inert,
        },
    decreases spans.len() - i,
{
    if i < spans.len() && meaning(s, spans[i]) == Meaning::Inert {
        lemma_first_control(s, spans, i + 1);
    }
}

/// Finds the first piece of an HTML block that is not inert, given where they are.
pub fn find_control(s: &[char], spans: &Vec<Span>) -> (r: Option<(usize, Meaning)>)
    requires
        outline::all_lie_in(spans@, s@.len() as int),
    ensures
        match r {
            Some((i, found)) => i < spans@.len() && first_control(s@, spans@, 0) == Some(i as int)
                && found == meaning(s@, spans@[i as int]) && found != Meaning::Inert,
            None => first_control(s@, spans@, 0) is None,
        },
{
    let mut i: usize = 0;
    while i < spans.len()
        invariant
            i <= spans@.len(),
            outline::all_lie_in(spans@, s@.len() as int),
            first_control(s@, spans@, i as int) == first_control(s@, spans@, 0),
        decreases spans@.len() - i,
    {
        assert(outline::lies_in(spans@[i as int], s@.len() as int));
        let found = meaning_of(s, spans[i]);
        match found {
            Meaning::Inert => {},
            _ => {
                return Some((i, found));
            },
        }
        i += 1;
    }
    None
}

/// Spans of what follows a cursor as spans of the whole.
pub open spec fn shifted(spans: Seq<Span>, by: int) -> Seq<Span> {
    spans.map_values(
        |span: Span| Span { start: (span.start + by) as usize, end: (span.end + by) as usize },
    )
}

/// The pieces of HTML blocks that the Markdown parser finds when it starts at a cursor.
pub open spec fn html_from(s: Seq<char>, cursor: int) -> Option<Seq<Span>> {
    match found(s.skip(cursor), MarkKind::Html) {
        Some(spans) => Some(shifted(spans, cursor)),
        None => None,
    }
}

/// Runs the Markdown parser from a cursor on.
fn find_html(s: &[char], cursor: usize) -> (r: Option<Vec<Span>>)
    requires
        cursor <= s@.len(),
        is_clean(s@),
    ensures
        match r {
            Some(spans) => html_from(s@, cursor as int) == Some(spans@) && outline::all_lie_in(
                spans@,
                s@.len() as int,
            ) && (forall|i: int|
                0 <= i < spans@.len() ==> cursor <= (#[trigger] spans@[i]).start),
            None => html_from(s@, cursor as int) is None,
        },
{
    let rest = slice_subrange(s, cursor, s.len());
    assert(rest@ =~= s@.skip(cursor as int));
    match find_marks(rest, MarkKind::Html) {
        None => None,
        Some(spans) => {
            let mut out: Vec<Span> = Vec::new();
            let mut i: usize = 0;
            while i < spans.len()
                invariant
                    i <= spans@.len(),
                    cursor + rest@.len() == s@.len(),
                    outline::all_lie_in(spans@, rest@.len() as int),
                    outline::all_lie_in(out@, s@.len() as int),
                    forall|k: int| 0 <= k < i ==> cursor <= (#[trigger] out@[k]).start,
                    out@ == shifted(spans@, cursor as int).take(i as int),
                    s@.len() <= usize::MAX,
                decreases spans@.len() - i,
            {
                assert(outline::lies_in(spans@[i as int], rest@.len() as int));
                out.push(Span { start: spans[i].start + cursor, end: spans[i].end + cursor });
                assert(out@ =~= shifted(spans@, cursor as int).take(i + 1));
                i += 1;
            }
            assert(out@ =~= shifted(spans@, cursor as int));
            Some(out)
        },
    }
}

/// A control record as specifications speak of it.
pub enum TokenView {
    Registry(Span),
    Start(MetaView, Span),
    End(Seq<char>, Span),
}

/// A control record.
pub enum Token {
    /// The registry marker.
    Registry(Span),
    /// The start record of a comment.
    Start(Meta, Span),
    /// The end marker of the comment with an id.
    End(Vec<char>, Span),
}

impl View for Token {
    type V = TokenView;

    open spec fn view(&self) -> TokenView {
        match self {
            Token::Registry(span) => TokenView::Registry(*span),
            Token::Start(meta, span) => TokenView::Start(meta@, *span),
            Token::End(id, span) => TokenView::End(id@, *span),
        }
    }
}

/// The control records in a list.
pub open spec fn token_views(tokens: Seq<Token>) -> Seq<TokenView> {
    tokens.map_values(|t: Token| t@)
}

/// Where a control record stands.
pub open spec fn token_span(token: TokenView) -> Span {
    match token {
        TokenView::Registry(span) => span,
        TokenView::Start(_, span) => span,
        TokenView::End(_, span) => span,
    }
}

/// Whether control records stand one behind the other in a text of the given length.
pub open spec fn in_sequence(tokens: Seq<TokenView>, len: int) -> bool {
    &&& forall|i: int|
        0 <= i < tokens.len() ==> outline::lies_in(token_span(#[trigger] tokens[i]), len)
            && token_span(tokens[i]).start < token_span(tokens[i]).end
    &&& forall|i: int, j: int|
        0 <= i < j < tokens.len() ==> token_span(#[trigger] tokens[i]).end <= token_span(
            #[trigger] tokens[j],
        ).start
}

/// The records of the comment whose start record begins at `start`: its metadata, its start record
/// and its end marker.
pub open spec fn block_at(s: Seq<char>, start: int) -> Result<(MetaView, Span, Span), Failure> {
    match record::record_from(s, start, start) {
        Err(failure) => Err(failure),
        Ok(opening) => match record::record_metadata(source_of(s, opening)) {
            Err(failure) => Err(failure),
            Ok(meta) => match record::end_from(s, opening.end as int, meta.id) {
                Err(failure) => Err(failure),
                Ok(closing) => Ok((meta, opening, closing)),
            },
        },
    }
}

/// Reads the records of the comment whose start record begins at `start`.
fn read_block(s: &[char], start: usize) -> (r: Result<(Meta, Span, Span), Error>)
    requires
        start <= s@.len(),
    ensures
        match r {
            Ok((meta, opening, closing)) => block_at(s@, start as int) == Ok::<
                (MetaView, Span, Span),
                Failure,
            >((meta@, opening, closing)) && start == opening.start && opening.start < opening.end
                <= closing.start && closing.start < closing.end <= s@.len(),
            Err(error) => block_at(s@, start as int) == Err::<(MetaView, Span, Span), Failure>(
                error@,
            ),
        },
{
    let opening = match record::comment_start_record_range(s, start) {
        Ok(span) => span,
        Err(error) => {
            return Err(error);
        },
    };
    let source = text::without_trail(
        slice_subrange(s, opening.start, opening.end),
        CharClass::LineEnd,
    );
    let meta = match record::parse_start_metadata(source) {
        Ok(meta) => meta,
        Err(error) => {
            return Err(error);
        },
    };
    match record::matching_comment_end(s, opening.end, &meta.id) {
        Ok(closing) => Ok((meta, opening, closing)),
        Err(error) => Err(error),
    }
}

/// Where a span of the whole that is not inert ends behind the cursor.
pub proof fn lemma_registry_progress(s: Seq<char>, cursor: int, spans: Seq<Span>, i: int)
    requires
        0 <= cursor <= s.len(),
        source::fits(s),
        html_from(s, cursor) == Some(spans),
        0 <= i < spans.len(),
    ensures
        cursor <= spans[i].start <= spans[i].end <= s.len(),
        meaning(s, spans[i]) == Meaning::Registry ==> spans[i].start < spans[i].end,
{
    let rest = s.skip(cursor);
    let raw = found(rest, MarkKind::Html)->0;
    lemma_fits_skip(s, cursor);
    lemma_located_lie_in(rest, outside::commonmark(rest), MarkKind::Html);
    assert(outline::lies_in(raw[i], rest.len() as int));
    lemma_fits_len(s);
    if meaning(s, spans[i]) == Meaning::Registry {
        reveal_strlit("<!-- kbmd:comments:v1 -->");
        assert(COMMENTS_MARKER@ == "<!-- kbmd:comments:v1 -->"@);
        text::lemma_trail_is(
            s.subrange(spans[i].start as int, spans[i].end as int),
            CharClass::LineEnd,
        );
        let whole = s.subrange(spans[i].start as int, spans[i].end as int);
        assert(source_of(s, spans[i]) == COMMENTS_MARKER@);
        assert(COMMENTS_MARKER@.len() > 0);
        assert(text::trim_end(whole, CharClass::LineEnd).len() <= whole.len());
        assert(whole.len() == spans[i].end - spans[i].start);
    }
}

pub proof fn lemma_fits_len(s: Seq<char>)
    requires
        source::fits(s),
    ensures
        s.len() <= usize::MAX,
{
    source::lemma_offset_increases(s, 0, s.len() as int);
    assert(s.take(s.len() as int) =~= s);
}

proof fn lemma_fits_skip(s: Seq<char>, n: int)
    requires
        source::fits(s),
        0 <= n <= s.len(),
    ensures
        source::fits(s.skip(n)),
{
    assert(s =~= s.take(n) + s.skip(n));
    source::lemma_encode_concat(s.take(n), s.skip(n));
}

/// What the Markdown parser finds lies in the text where it can be located.
pub proof fn lemma_located_lie_in(s: Seq<char>, marks: Seq<RawMark>, kind: MarkKind)
    requires
        source::fits(s),
    ensures
        outline::located(s, marks, kind) matches Some(spans) ==> outline::all_lie_in(
            spans,
            s.len() as int,
        ),
    decreases marks.len(),
{
    if marks.len() > 0 {
        lemma_located_lie_in(s, marks.drop_last(), kind);
        let mark = marks.last();
        if exists|i: int| source::begins_at(s, mark.end as int, i) {
            let i = choose|i: int| source::begins_at(s, mark.end as int, i);
            source::lemma_index_of(s, mark.end as int, i);
        }
    }
}

pub proof fn lemma_block_progress(s: Seq<char>, start: int)
    requires
        0 <= start <= s.len() <= usize::MAX,
    ensures
        block_at(s, start) matches Ok((_, _, closing)) ==> start < closing.end <= s.len(),
{
    if block_at(s, start) is Ok {
        let opening = record::record_from(s, start, start)->Ok_0;
        lemma_record_bounds(s, start, start);
        let meta = record::record_metadata(source_of(s, opening))->Ok_0;
        lemma_end_bounds(s, opening.end as int, meta.id);
    }
}

proof fn lemma_record_bounds(s: Seq<char>, start: int, at: int)
    requires
        0 <= start <= at <= s.len() <= usize::MAX,
    ensures
        record::record_from(s, start, at) matches Ok(span) ==> at < span.end <= s.len(),
    decreases s.len() - at,
{
    if at < s.len() {
        text::lemma_line_end(s, at);
        lemma_record_bounds(s, start, text::line_end(s, at));
    }
}

/// Where an end marker ends.
pub proof fn lemma_end_bounds(s: Seq<char>, at: int, id: Seq<char>)
    requires
        0 <= at <= s.len() <= usize::MAX,
    ensures
        record::end_from(s, at, id) matches Ok(span) ==> at < span.end <= s.len(),
    decreases s.len() - at,
{
    if at < s.len() {
        text::lemma_line_end(s, at);
        lemma_end_bounds(s, text::line_end(s, at), id);
    }
}

/// The control records from a cursor on, behind those that are already read. The Markdown parser
/// starts anew behind each record, so nothing in a comment changes how what follows is read.
pub open spec fn tokens_from(s: Seq<char>, cursor: int, read: Seq<TokenView>) -> Result<
    Seq<TokenView>,
    Failure,
>
    decreases s.len() - cursor,
    when source::fits(s)
{
    if cursor < 0 || cursor >= s.len() {
        Ok(read)
    } else {
        match html_from(s, cursor) {
            None => Err(error::plain(ErrorKind::ParserRange)),
            Some(spans) => match first_control(s, spans, 0) {
                None => Ok(read),
                Some(i) => {
                    proof {
                        lemma_first_control(s, spans, 0);
                        lemma_registry_progress(s, cursor, spans, i);
                        lemma_fits_len(s);
                        lemma_block_progress(s, spans[i].start as int);
                    }
                    match meaning(s, spans[i]) {
                        Meaning::Inert => Ok(read),
                        Meaning::Refused(kind) => Err(error::plain(kind)),
                        Meaning::Registry => tokens_from(
                            s,
                            spans[i].end as int,
                            read.push(TokenView::Registry(spans[i])),
                        ),
                        Meaning::Start => match block_at(s, spans[i].start as int) {
                            Err(failure) => Err(failure),
                            Ok((meta, opening, closing)) => tokens_from(
                                s,
                                closing.end as int,
                                read.push(TokenView::Start(meta, opening)).push(
                                    TokenView::End(meta.id, closing),
                                ),
                            ),
                        },
                    }
                },
            },
        }
    }
}

/// The control records of a body.
pub open spec fn tokens(s: Seq<char>) -> Result<Seq<TokenView>, Failure> {
    if !is_clean(s) {
        Err(error::plain(ErrorKind::ControlByte))
    } else {
        tokens_from(s, 0, Seq::empty())
    }
}

/// Reads the control records of a body.
fn marker_tokens(s: &[char]) -> (r: Result<Vec<Token>, Error>)
    requires
        source::fits(s@),
    ensures
        match r {
            Ok(list) => tokens(s@) == Ok::<Seq<TokenView>, Failure>(token_views(list@))
                && in_sequence(token_views(list@), s@.len() as int) && is_clean(s@),
            Err(error) => tokens(s@) == Err::<Seq<TokenView>, Failure>(error@),
        },
{
    if !clean(s) {
        return Err(Error::plain(ErrorKind::ControlByte));
    }
    let mut read: Vec<Token> = Vec::new();
    assert(token_views(read@) =~= Seq::empty());
    let mut cursor: usize = 0;
    while cursor < s.len()
        invariant
            cursor <= s@.len(),
            source::fits(s@),
            is_clean(s@),
            in_sequence(token_views(read@), s@.len() as int),
            forall|i: int|
                0 <= i < read@.len() ==> token_span(#[trigger] token_views(read@)[i]).end <= cursor,
            tokens_from(s@, cursor as int, token_views(read@)) == tokens(s@),
        decreases s@.len() - cursor,
    {
        let spans = match find_html(s, cursor) {
            Some(spans) => spans,
            None => {
                return Err(Error::plain(ErrorKind::ParserRange));
            },
        };
        match find_control(s, &spans) {
            None => {
                return Ok(read);
            },
            Some((i, found)) => {
                let span = spans[i];
                proof {
                    lemma_registry_progress(s@, cursor as int, spans@, i as int);
                    lemma_fits_len(s@);
                    lemma_block_progress(s@, span.start as int);
                }
                let ghost before = token_views(read@);
                match found {
                    Meaning::Inert => {
                        return Ok(read);
                    },
                    Meaning::Refused(kind) => {
                        return Err(Error::plain(kind));
                    },
                    Meaning::Registry => {
                        read.push(Token::Registry(span));
                        assert(token_views(read@) =~= before.push(TokenView::Registry(span)));
                        cursor = span.end;
                    },
                    Meaning::Start => {
                        let (meta, opening, closing) = match read_block(s, span.start) {
                            Ok(block) => block,
                            Err(error) => {
                                return Err(error);
                            },
                        };
                        let id = text::copy_of(&meta.id);
                        let ghost first = TokenView::Start(meta@, opening);
                        let ghost second = TokenView::End(meta@.id, closing);
                        read.push(Token::Start(meta, opening));
                        read.push(Token::End(id, closing));
                        assert(token_views(read@) =~= before.push(first).push(second));
                        cursor = closing.end;
                    },
                }
            },
        }
    }
    Ok(read)
}

/// The whole lines that a control record takes.
pub open spec fn complete_lines(s: Seq<char>, span: Span) -> Span {
    Span {
        start: text::line_start(s, span.start as int) as usize,
        end: if span.end > 0 && s[span.end - 1] == '\n' {
            span.end
        } else {
            text::line_end(s, span.end as int) as usize
        },
    }
}

/// Finds the whole lines that a control record takes.
fn complete_line_range(s: &[char], span: Span) -> (r: Span)
    requires
        outline::lies_in(span, s@.len() as int),
    ensures
        r == complete_lines(s@, span),
        outline::lies_in(r, s@.len() as int),
        r.start <= span.start,
        span.end <= r.end,
{
    let start = text::start_of_line(s, span.start);
    let end = if span.end > 0 && s[span.end - 1] == '\n' {
        span.end
    } else {
        text::end_of_line(s, span.end)
    };
    Span { start, end }
}

/// What is read of the comments of a body so far.
#[verifier::ext_equal]
pub struct DraftView {
    /// The registry marker.
    pub registry: Option<Span>,
    /// The start record of the comment that is being read.
    pub open: Option<(MetaView, Span)>,
    /// The comments that are read.
    pub comments: Seq<CommentView>,
    /// Where they stand.
    pub ranges: Seq<Span>,
    /// The lines of the control records.
    pub hidden: Seq<Span>,
    /// The ids that are taken.
    pub ids: Seq<Seq<char>>,
}

/// Nothing is read.
pub open spec fn blank_draft() -> DraftView {
    DraftView {
        registry: None,
        open: None,
        comments: Seq::empty(),
        ranges: Seq::empty(),
        hidden: Seq::empty(),
        ids: Seq::empty(),
    }
}

/// Whether an id is taken, whatever the case of its letters.
pub open spec fn taken(ids: Seq<Seq<char>>, id: Seq<char>) -> bool {
    exists|i: int| 0 <= i < ids.len() && text::alike(#[trigger] ids[i], id)
}

/// What a control record adds to what is read.
pub open spec fn step(s: Seq<char>, draft: DraftView, token: TokenView) -> Result<
    DraftView,
    Failure,
> {
    match token {
        TokenView::Registry(span) => if draft.open is Some {
            Err(error::plain(ErrorKind::NestedRegistry))
        } else if draft.registry is Some {
            Err(error::plain(ErrorKind::SecondRegistry))
        } else {
            Ok(
                DraftView {
                    registry: Some(span),
                    hidden: draft.hidden.push(complete_lines(s, span)),
                    ..draft
                },
            )
        },
        TokenView::Start(meta, span) => if draft.open is Some {
            Err(error::plain(ErrorKind::NestedStart))
        } else {
            match record::meta_check(meta) {
                Err(failure) => Err(failure),
                Ok(_) => if taken(draft.ids, meta.id) {
                    Err(error::about(ErrorKind::DuplicateComment, meta.id))
                } else {
                    Ok(
                        DraftView {
                            open: Some((meta, span)),
                            hidden: draft.hidden.push(complete_lines(s, span)),
                            ids: draft.ids.push(meta.id),
                            ..draft
                        },
                    )
                },
            }
        },
        TokenView::End(id, span) => match draft.open {
            None => Err(error::about(ErrorKind::OrphanEndOf, id)),
            Some((meta, start)) => if id != meta.id {
                Err(error::detailed(ErrorKind::MismatchedEnd, id, meta.id))
            } else {
                match record::id_check(id) {
                    Err(failure) => Err(failure),
                    Ok(_) => match comment_in(
                        s.subrange(start.end as int, span.start as int),
                        meta,
                    ) {
                        Err(failure) => Err(failure),
                        Ok(comment) => Ok(
                            DraftView {
                                open: None,
                                comments: draft.comments.push(comment),
                                ranges: draft.ranges.push(
                                    Span { start: start.start, end: span.end },
                                ),
                                hidden: draft.hidden.push(complete_lines(s, span)),
                                ..draft
                            },
                        ),
                    },
                }
            },
        },
    }
}

/// What the control records from `i` on add to what is read.
pub open spec fn gathered(s: Seq<char>, tokens: Seq<TokenView>, i: int, draft: DraftView) -> Result<
    DraftView,
    Failure,
>
    decreases tokens.len() - i,
{
    if i < 0 || i >= tokens.len() {
        Ok(draft)
    } else {
        match step(s, draft, tokens[i]) {
            Err(failure) => Err(failure),
            Ok(next) => gathered(s, tokens, i + 1, next),
        }
    }
}

/// What is read of the comments of a body so far.
struct Draft {
    registry: Option<Span>,
    open: Option<(Meta, Span)>,
    comments: Vec<Comment>,
    ranges: Vec<Span>,
    hidden: Vec<Span>,
    ids: Vec<Vec<char>>,
}

impl View for Draft {
    type V = DraftView;

    closed spec fn view(&self) -> DraftView {
        DraftView {
            registry: self.registry,
            open: match self.open {
                Some((meta, span)) => Some((meta@, span)),
                None => None,
            },
            comments: comment_views(self.comments@),
            ranges: self.ranges@,
            hidden: self.hidden@,
            ids: text::texts(self.ids@),
        }
    }
}

/// Whether an id is among those that are taken.
fn is_taken(ids: &Vec<Vec<char>>, id: &[char]) -> (r: bool)
    ensures
        r == taken(text::texts(ids@), id@),
{
    let mut i: usize = 0;
    while i < ids.len()
        invariant
            i <= ids@.len(),
            forall|k: int| 0 <= k < i ==> !text::alike(#[trigger] text::texts(ids@)[k], id@),
        decreases ids@.len() - i,
    {
        assert(text::texts(ids@)[i as int] == ids@[i as int]@);
        if text::same_folded(&ids[i], id) {
            return true;
        }
        i += 1;
    }
    false
}

/// Whether what is read stands in front of an index.
spec fn drawn_before(draft: DraftView, at: int, len: int) -> bool {
    &&& draft.open matches Some((_, span)) ==> span.start < span.end <= at
    &&& draft.registry matches Some(span) ==> outline::lies_in(span, len)
    &&& outline::all_lie_in(draft.ranges, len)
    &&& outline::all_lie_in(draft.hidden, len)
    &&& forall|i: int|
        0 <= i < draft.ranges.len() ==> (#[trigger] draft.ranges[i]).start < draft.ranges[i].end
            <= at && (draft.open matches Some((_, span)) ==> draft.ranges[i].end <= span.start)
    &&& forall|i: int, j: int|
        0 <= i < j < draft.ranges.len() ==> (#[trigger] draft.ranges[i]).end <= (
        #[trigger] draft.ranges[j]).start
}

/// Adds a control record to what is read.
fn take_token(s: &[char], draft: Draft, token: &Token, Ghost(at): Ghost<int>) -> (r: Result<
    Draft,
    Error,
>)
    requires
        is_clean(s@),
        drawn_before(draft@, at, s@.len() as int),
        outline::lies_in(token_span(token@), s@.len() as int),
        at <= token_span(token@).start < token_span(token@).end,
    ensures
        error::agrees(r, step(s@, draft@, token@)),
        r matches Ok(next) ==> drawn_before(
            next@,
            token_span(token@).end as int,
            s@.len() as int,
        ),
{
    let mut draft = draft;
    match token {
        Token::Registry(span) => {
            if draft.open.is_some() {
                return Err(Error::plain(ErrorKind::NestedRegistry));
            }
            if draft.registry.is_some() {
                return Err(Error::plain(ErrorKind::SecondRegistry));
            }
            draft.registry = Some(*span);
            draft.hidden.push(complete_line_range(s, *span));
            Ok(draft)
        },
        Token::Start(meta, span) => {
            if draft.open.is_some() {
                return Err(Error::plain(ErrorKind::NestedStart));
            }
            match record::validate_metadata(meta) {
                Ok(_) => {},
                Err(error) => {
                    return Err(error);
                },
            }
            if is_taken(&draft.ids, &meta.id) {
                return Err(Error::about(ErrorKind::DuplicateComment, &meta.id));
            }
            let ghost ids = text::texts(draft.ids@);
            draft.hidden.push(complete_line_range(s, *span));
            draft.ids.push(text::copy_of(&meta.id));
            assert(text::texts(draft.ids@) =~= ids.push(meta@.id));
            draft.open = Some((meta.copied(), *span));
            Ok(draft)
        },
        Token::End(id, span) => {
            match draft.open.take() {
                None => Err(Error::about(ErrorKind::OrphanEndOf, id)),
                Some((meta, start)) => {
                    if !text::same(id, &meta.id) {
                        return Err(Error::detailed(ErrorKind::MismatchedEnd, id, &meta.id));
                    }
                    match record::validate_id(id) {
                        Ok(_) => {},
                        Err(error) => {
                            return Err(error);
                        },
                    }
                    let content = slice_subrange(s, start.end, span.start);
                    match parse_comment_body(content, &meta) {
                        Err(error) => Err(error),
                        Ok(comment) => {
                            let ghost comments = comment_views(draft.comments@);
                            let ghost added = comment@;
                            draft.comments.push(comment);
                            assert(comment_views(draft.comments@) =~= comments.push(added));
                            draft.ranges.push(Span { start: start.start, end: span.end });
                            draft.hidden.push(complete_line_range(s, *span));
                            Ok(draft)
                        },
                    }
                },
            }
        },
    }
}

/// The heading in the line that holds an index.
pub open spec fn heading_at(s: Seq<char>, at: int) -> Option<HeadingView> {
    let start = text::line_start(s, at);
    let end = text::line_end(s, start);
    let line = text::trim_start(
        text::trim_end(s.subrange(start, end), CharClass::LineEnd),
        CharClass::Space,
    );
    match outline::atx(line) {
        Some((level, title)) => Some(
            HeadingView { title, level, start: start as usize, content_start: end as usize },
        ),
        None => None,
    }
}

/// The headings at the spans from `i` on that are not excluded, behind those that are already read.
pub open spec fn headings_from(
    s: Seq<char>,
    spans: Seq<Span>,
    excluded: Seq<Span>,
    i: int,
    read: Seq<HeadingView>,
) -> Seq<HeadingView>
    decreases spans.len() - i,
{
    if i < 0 || i >= spans.len() {
        read
    } else if outline::covered(excluded, spans[i].start as int) {
        headings_from(s, spans, excluded, i + 1, read)
    } else {
        match heading_at(s, spans[i].start as int) {
            Some(heading) => headings_from(s, spans, excluded, i + 1, read.push(heading)),
            None => headings_from(s, spans, excluded, i + 1, read),
        }
    }
}

/// The sections that headings at the given spans open, the excluded ones left out.
pub open spec fn sections_at(s: Seq<char>, spans: Seq<Span>, excluded: Seq<Span>) -> Seq<
    RegionView,
> {
    outline::regions(headings_from(s, spans, excluded, 0, Seq::empty()), s.len() as usize)
}

/// The constructs of one kind in a text, as the Markdown parser finds them where spans of it are
/// blanked.
pub open spec fn found_outside(s: Seq<char>, excluded: Seq<Span>, kind: MarkKind) -> Option<
    Seq<Span>,
> {
    outline::located(s, outside::commonmark(outline::masked(s, excluded)), kind)
}

/// The sections of a text, spans of it excluded.
pub open spec fn structural_sections(s: Seq<char>, excluded: Seq<Span>) -> Option<Seq<RegionView>> {
    match found_outside(s, excluded, MarkKind::Heading) {
        None => None,
        Some(spans) => Some(sections_at(s, spans, excluded)),
    }
}

proof fn lemma_blanked_clean(s: Seq<char>, spans: Seq<Span>, n: nat)
    requires
        is_clean(s),
    ensures
        is_clean(outline::blanked(s, spans, n)),
    decreases n,
{
    if n > 0 && n <= s.len() {
        lemma_blanked_clean(s, spans, (n - 1) as nat);
    }
}

/// Runs the Markdown parser over a text in which spans are blanked.
pub(crate) fn find_marks_outside(s: &[char], excluded: &Vec<Span>, kind: MarkKind) -> (r: Option<
    Vec<Span>,
>)
    requires
        is_clean(s@),
    ensures
        match r {
            Some(spans) => found_outside(s@, excluded@, kind) == Some(spans@)
                && outline::all_lie_in(spans@, s@.len() as int),
            None => found_outside(s@, excluded@, kind) is None,
        },
{
    let masked = outline::mask_ranges(s, excluded);
    proof {
        lemma_blanked_clean(s@, excluded@, s@.len());
    }
    let marks = outside::parse_commonmark(&text::string_of(&masked));
    outline::locate(&Source::of(&text::string_of(s)), &marks, kind)
}

/// Reads the heading in the line that holds an index.
fn read_heading(s: &[char], at: usize) -> (r: Option<Heading>)
    requires
        at <= s@.len(),
    ensures
        match r {
            Some(heading) => heading_at(s@, at as int) == Some(heading@) && heading@.start
                <= heading@.content_start <= s@.len(),
            None => heading_at(s@, at as int) is None,
        },
{
    let start = text::start_of_line(s, at);
    let end = text::end_of_line(s, start);
    let line = text::without_lead(
        text::without_trail(slice_subrange(s, start, end), CharClass::LineEnd),
        CharClass::Space,
    );
    match outline::atx_heading(line) {
        Some((level, title)) => Some(Heading { title, level, start, content_start: end }),
        None => None,
    }
}

/// Builds the sections that headings at the given spans open, the excluded ones left out.
pub fn sections_of(s: &[char], spans: &Vec<Span>, excluded: &Vec<Span>) -> (r: Vec<Region>)
    requires
        outline::all_lie_in(spans@, s@.len() as int),
    ensures
        outline::region_views(r@) == sections_at(s@, spans@, excluded@),
        outline::bounded(outline::region_views(r@), s@.len() as int),
{
    let mut read: Vec<Heading> = Vec::new();
    assert(outline::heading_views(read@) =~= Seq::empty());
    let ghost all = headings_from(s@, spans@, excluded@, 0, Seq::empty());
    let mut i: usize = 0;
    while i < spans.len()
        invariant
            i <= spans@.len(),
            outline::all_lie_in(spans@, s@.len() as int),
            headings_from(s@, spans@, excluded@, i as int, outline::heading_views(read@)) == all,
            outline::headings_bounded(outline::heading_views(read@), s@.len() as int),
        decreases spans@.len() - i,
    {
        assert(outline::lies_in(spans@[i as int], s@.len() as int));
        if !outline::is_covered(excluded, spans[i].start) {
            match read_heading(s, spans[i].start) {
                Some(heading) => {
                    let ghost before = outline::heading_views(read@);
                    let ghost added = heading@;
                    read.push(heading);
                    assert(outline::heading_views(read@) =~= before.push(added));
                },
                None => {},
            }
        }
        i += 1;
    }
    proof {
        outline::lemma_bounded(outline::heading_views(read@), s.len());
    }
    outline::regions_of(&read, s.len())
}

/// Finds the sections of a text, spans of it excluded.
pub(crate) fn find_sections(s: &[char], excluded: &Vec<Span>) -> (r: Option<Vec<Region>>)
    requires
        is_clean(s@),
    ensures
        match r {
            Some(sections) => structural_sections(s@, excluded@) == Some(
                outline::region_views(sections@),
            ) && outline::bounded(outline::region_views(sections@), s@.len() as int),
            None => structural_sections(s@, excluded@) is None,
        },
{
    match find_marks_outside(s, excluded, MarkKind::Heading) {
        None => None,
        Some(spans) => Some(sections_of(s, &spans, excluded)),
    }
}

/// The section that the registry marker is in, as specifications speak of it.
#[verifier::ext_equal]
pub struct RegistryView {
    pub section: RegionView,
    pub direct_end: usize,
}

/// The section that the registry marker is in, and where its own content ends.
pub struct Registry {
    pub section: Region,
    pub direct_end: usize,
}

impl View for Registry {
    type V = RegistryView;

    open spec fn view(&self) -> RegistryView {
        RegistryView { section: self.section@, direct_end: self.direct_end }
    }
}

/// Whether all comments stand behind the registry marker, in the content of its section itself.
pub open spec fn all_registered(ranges: Seq<Span>, marker: Span, direct_end: usize) -> bool {
    forall|i: int|
        0 <= i < ranges.len() ==> marker.end <= (#[trigger] ranges[i]).start && ranges[i].end
            <= direct_end
}

/// The section that a registry marker is in, given the sections and where the comments stand.
pub open spec fn registry_in(sections: Seq<RegionView>, marker: Span, ranges: Seq<Span>) -> Result<
    RegistryView,
    Failure,
> {
    match outline::deepest(sections, marker.start as int, sections.len()) {
        None => Err(error::plain(ErrorKind::RegistryOutsideSection)),
        Some(i) => {
            let direct_end = outline::direct_end(sections, sections[i], 0);
            if all_registered(ranges, marker, direct_end) {
                Ok(RegistryView { section: sections[i], direct_end })
            } else {
                Err(error::plain(ErrorKind::CommentOutsideRegistry))
            }
        },
    }
}

/// Finds the section that a registry marker is in.
pub fn find_registry(sections: &Vec<Region>, marker: Span, ranges: &Vec<Span>) -> (r: Result<
    Registry,
    Error,
>)
    ensures
        error::agrees(r, registry_in(outline::region_views(sections@), marker, ranges@)),
        r matches Ok(registry) ==> exists|i: int|
            0 <= i < sections@.len() && (#[trigger] sections@[i])@ == registry.section@,
{
    match outline::deepest_at(sections, marker.start) {
        None => Err(Error::plain(ErrorKind::RegistryOutsideSection)),
        Some(i) => {
            let section = sections[i].copied();
            assert(outline::region_views(sections@)[i as int] == section@);
            let direct_end = outline::direct_content_end(sections, &section);
            let ghost views = outline::region_views(sections@);
            let mut k: usize = 0;
            while k < ranges.len()
                invariant
                    k <= ranges@.len(),
                    views == outline::region_views(sections@),
                    outline::deepest(views, marker.start as int, views.len()) == Some(i as int),
                    direct_end == outline::direct_end(views, views[i as int], 0),
                    forall|j: int|
                        0 <= j < k ==> marker.end <= (#[trigger] ranges@[j]).start && ranges@[j].end
                            <= direct_end,
                decreases ranges@.len() - k,
            {
                if ranges[k].start < marker.end || ranges[k].end > direct_end {
                    assert(!all_registered(ranges@, marker, direct_end));
                    return Err(Error::plain(ErrorKind::CommentOutsideRegistry));
                }
                k += 1;
            }
            Ok(Registry { section, direct_end })
        },
    }
}

/// The comments of a body as specifications speak of them.
#[verifier::ext_equal]
pub struct DocumentView {
    /// The comments in document order.
    pub comments: Seq<CommentView>,
    /// The section that holds them.
    pub registry: Option<RegistryView>,
    /// Where they stand.
    pub ranges: Seq<Span>,
    /// The lines of the control records.
    pub hidden: Seq<Span>,
}

/// The comments of a body.
pub struct Document {
    pub comments: Vec<Comment>,
    pub registry: Option<Registry>,
    pub ranges: Vec<Span>,
    pub hidden: Vec<Span>,
}

impl View for Document {
    type V = DocumentView;

    open spec fn view(&self) -> DocumentView {
        DocumentView {
            comments: comment_views(self.comments@),
            registry: match self.registry {
                Some(registry) => Some(registry@),
                None => None,
            },
            ranges: self.ranges@,
            hidden: self.hidden@,
        }
    }
}

impl Document {
    /// The control lines and the section that holds the comments lie in a text of the given length.
    pub open spec fn bounded(&self, len: int) -> bool {
        &&& outline::all_lie_in(self.hidden@, len)
        &&& self.registry matches Some(registry) ==> registry.direct_end <= len
            && registry.section.start <= len && registry.section.end <= len
    }
}

/// The comments of a body when all its control records are read.
pub open spec fn finished(s: Seq<char>, draft: DraftView) -> Result<DocumentView, Failure> {
    if let Some((meta, _)) = draft.open {
        Err(error::about(ErrorKind::UnfinishedComment, meta.id))
    } else {
        match draft.registry {
            None => if draft.comments.len() > 0 {
                Err(error::plain(ErrorKind::NoRegistry))
            } else {
                Ok(
                    DocumentView {
                        comments: draft.comments,
                        registry: None,
                        ranges: draft.ranges,
                        hidden: draft.hidden,
                    },
                )
            },
            Some(marker) => match structural_sections(s, draft.ranges) {
                None => Err(error::plain(ErrorKind::ParserRange)),
                Some(sections) => match registry_in(sections, marker, draft.ranges) {
                    Err(failure) => Err(failure),
                    Ok(registry) => Ok(
                        DocumentView {
                            comments: draft.comments,
                            registry: Some(registry),
                            ranges: draft.ranges,
                            hidden: draft.hidden,
                        },
                    ),
                },
            },
        }
    }
}

/// The comments that a list of control records gives.
pub open spec fn assembled(s: Seq<char>, tokens: Seq<TokenView>) -> Result<DocumentView, Failure> {
    match gathered(s, tokens, 0, blank_draft()) {
        Err(failure) => Err(failure),
        Ok(draft) => finished(s, draft),
    }
}

/// The comments of a body.
pub open spec fn document(s: Seq<char>) -> Result<DocumentView, Failure> {
    match tokens(s) {
        Err(failure) => Err(failure),
        Ok(tokens) => assembled(s, tokens),
    }
}

/// Whether spans stand one behind the other in a text of the given length.
pub open spec fn spans_in_sequence(spans: Seq<Span>, len: int) -> bool {
    &&& outline::all_lie_in(spans, len)
    &&& forall|i: int, j: int|
        0 <= i < j < spans.len() ==> (#[trigger] spans[i]).end <= (#[trigger] spans[j]).start
}

/// Ends the reading of the control records of a body.
fn finish(s: &[char], draft: Draft) -> (r: Result<Document, Error>)
    requires
        is_clean(s@),
        outline::all_lie_in(draft@.hidden, s@.len() as int),
    ensures
        error::agrees(r, finished(s@, draft@)),
        r matches Ok(document) ==> document.ranges@ == draft@.ranges && document.bounded(
            s@.len() as int,
        ),
{
    if let Some((meta, _)) = &draft.open {
        return Err(Error::about(ErrorKind::UnfinishedComment, &meta.id));
    }
    match draft.registry {
        None => {
            if draft.comments.len() > 0 {
                return Err(Error::plain(ErrorKind::NoRegistry));
            }
            Ok(
                Document {
                    comments: draft.comments,
                    registry: None,
                    ranges: draft.ranges,
                    hidden: draft.hidden,
                },
            )
        },
        Some(marker) => match find_sections(s, &draft.ranges) {
            None => Err(Error::plain(ErrorKind::ParserRange)),
            Some(sections) => match find_registry(&sections, marker, &draft.ranges) {
                Err(error) => Err(error),
                Ok(registry) => {
                    proof {
                        let views = outline::region_views(sections@);
                        let i = choose|i: int|
                            0 <= i < sections@.len() && (#[trigger] sections@[i])@
                                == registry.section@;
                        assert(views[i] == registry.section@);
                        outline::lemma_direct_end(views, views[i], 0, s@.len() as int);
                    }
                    Ok(
                        Document {
                            comments: draft.comments,
                            registry: Some(registry),
                            ranges: draft.ranges,
                            hidden: draft.hidden,
                        },
                    )
                },
            },
        },
    }
}

/// Gathers the comments that a list of control records gives.
pub fn assemble(s: &[char], tokens: &Vec<Token>) -> (r: Result<Document, Error>)
    requires
        is_clean(s@),
        in_sequence(token_views(tokens@), s@.len() as int),
    ensures
        error::agrees(r, assembled(s@, token_views(tokens@))),
        r matches Ok(document) ==> spans_in_sequence(document.ranges@, s@.len() as int)
            && document.bounded(s@.len() as int),
{
    let ghost views = token_views(tokens@);
    let ghost len = s@.len() as int;
    let mut draft = Draft {
        registry: None,
        open: None,
        comments: Vec::new(),
        ranges: Vec::new(),
        hidden: Vec::new(),
        ids: Vec::new(),
    };
    proof {
        assert(comment_views(draft.comments@) =~= Seq::empty());
        assert(text::texts(draft.ids@) =~= Seq::empty());
        assert(draft@ =~= blank_draft());
    }
    let ghost mut at: int = 0;
    let mut i: usize = 0;
    while i < tokens.len()
        invariant
            i <= tokens@.len(),
            is_clean(s@),
            len == s@.len(),
            views == token_views(tokens@),
            in_sequence(views, len),
            drawn_before(draft@, at, len),
            i < views.len() ==> at <= token_span(views[i as int]).start,
            gathered(s@, views, i as int, draft@) == gathered(s@, views, 0, blank_draft()),
        decreases tokens@.len() - i,
    {
        assert(views[i as int] == tokens@[i as int]@);
        match take_token(s, draft, &tokens[i], Ghost(at)) {
            Err(error) => {
                return Err(error);
            },
            Ok(next) => {
                draft = next;
                proof {
                    at = token_span(views[i as int]).end as int;
                }
            },
        }
        i += 1;
    }
    finish(s, draft)
}

/// Reads the comments of a body.
pub(crate) fn parse_document(s: &[char]) -> (r: Result<Document, Error>)
    requires
        source::fits(s@),
    ensures
        error::agrees(r, document(s@)),
        r matches Ok(document) ==> is_clean(s@) && spans_in_sequence(
            document.ranges@,
            s@.len() as int,
        ) && document.bounded(s@.len() as int),
{
    match marker_tokens(s) {
        Err(error) => Err(error),
        Ok(tokens) => assemble(s, &tokens),
    }
}

/// Whether all control records begin a line, and all end markers end one.
pub open spec fn begin_lines(s: Seq<char>, tokens: Seq<TokenView>) -> bool {
    forall|i: int|
        0 <= i < tokens.len() ==> text::begins_line(s, token_span(#[trigger] tokens[i]).start as int)
            && (tokens[i] is End ==> closes(s, token_span(tokens[i]).end as int))
}

/// Whether an end marker can end at an index: with a line feed, or in the last line, which is none of
/// text.
pub open spec fn closes(s: Seq<char>, at: int) -> bool {
    s[at - 1] == '\n' || (at == s.len() && s[text::line_start(s, at)] == '<')
}

/// Whether a line ends in front of an index.
pub open spec fn ends_line(s: Seq<char>, at: int) -> bool {
    at == s.len() || s[at - 1] == '\n'
}

/// Whether a span is made of whole lines.
pub open spec fn is_whole_lines(s: Seq<char>, span: Span) -> bool {
    &&& lies_between(span, s.len() as int)
    &&& text::begins_line(s, span.start as int)
    &&& ends_line(s, span.end as int)
}

/// Whether a span is a range with something in it.
pub open spec fn lies_between(span: Span, len: int) -> bool {
    span.start < span.end <= len
}

/// An index at the end of a line begins a line.
pub proof fn lemma_line_end_begins(s: Seq<char>, at: int)
    requires
        0 <= at < s.len(),
    ensures
        text::line_end(s, at) < s.len() ==> text::begins_line(s, text::line_end(s, at)),
{
    text::lemma_line_end(s, at);
}

proof fn lemma_marker_closes(s: Seq<char>, at: int, id: Seq<char>)
    requires
        0 <= at < s.len(),
        text::begins_line(s, at),
        text::line_at(s, at) == record::end_marker(id),
    ensures
        closes(s, text::line_end(s, at)),
{
    let end = text::line_end(s, at);
    text::lemma_line_end(s, at);
    if s[end - 1] != '\n' {
        assert(end == s.len());
        let start = text::line_start(s, end);
        text::lemma_line_start(s, end);
        text::lemma_line_start(s, at);
        if start > at {
            assert(s[start - 1] != '\n');
        }
        assert(start == at) by {
            if start < at {
                assert(s[at - 1] == '\n');
            }
        }
        reveal_strlit("<!-- kbmd:comment:end ");
        assert(record::COMMENT_END_PREFIX@ == "<!-- kbmd:comment:end "@);
        assert(record::end_marker(id)[0] == '<');
        let line = s.subrange(at, end);
        assert(line.last() == s[end - 1]);
        assert(seq!['\r', '\n'].last() == '\n' && seq!['\n'].last() == '\n');
        assert(text::line_text(line) == line);
    }
}

proof fn lemma_end_places(s: Seq<char>, at: int, id: Seq<char>)
    requires
        0 <= at <= s.len() <= usize::MAX,
        at < s.len() ==> text::begins_line(s, at),
    ensures
        record::end_from(s, at, id) matches Ok(span) ==> at <= span.start < span.end <= s.len()
            && text::begins_line(s, span.start as int) && closes(s, span.end as int),
    decreases s.len() - at,
{
    if at < s.len() {
        text::lemma_line_end(s, at);
        lemma_line_end_begins(s, at);
        lemma_end_places(s, text::line_end(s, at), id);
        if text::line_at(s, at) == record::end_marker(id) {
            lemma_marker_closes(s, at, id);
        }
    }
}

/// Where a start record ends.
pub proof fn lemma_record_places(s: Seq<char>, start: int, at: int)
    requires
        0 <= start <= at <= s.len() <= usize::MAX,
    ensures
        record::record_from(s, start, at) matches Ok(span) ==> span.start == start && at < span.end
            <= s.len() && (span.end < s.len() ==> text::begins_line(s, span.end as int)),
    decreases s.len() - at,
{
    if at < s.len() {
        text::lemma_line_end(s, at);
        lemma_line_end_begins(s, at);
        lemma_record_places(s, start, text::line_end(s, at));
    }
}

pub proof fn lemma_tokens_places(s: Seq<char>, cursor: int, read: Seq<TokenView>)
    requires
        source::fits(s),
        0 <= cursor <= s.len(),
        in_sequence(read, s.len() as int),
        begin_lines(s, read),
        forall|i: int| 0 <= i < read.len() ==> token_span(#[trigger] read[i]).end <= cursor,
    ensures
        tokens_from(s, cursor, read) matches Ok(all) ==> in_sequence(all, s.len() as int)
            && begin_lines(s, all),
    decreases s.len() - cursor,
{
    lemma_fits_len(s);
    if cursor < s.len() {
        if let Some(spans) = html_from(s, cursor) {
            if let Some(i) = first_control(s, spans, 0) {
                lemma_first_control(s, spans, 0);
                lemma_registry_progress(s, cursor, spans, i);
                let span = spans[i];
                if meaning(s, span) == Meaning::Registry {
                    lemma_tokens_places(
                        s,
                        span.end as int,
                        read.push(TokenView::Registry(span)),
                    );
                } else if meaning(s, span) == Meaning::Start {
                    if let Ok((meta, opening, closing)) = block_at(s, span.start as int) {
                        lemma_record_places(s, span.start as int, span.start as int);
                        lemma_end_places(s, opening.end as int, meta.id);
                        lemma_tokens_places(
                            s,
                            closing.end as int,
                            read.push(TokenView::Start(meta, opening)).push(
                                TokenView::End(meta.id, closing),
                            ),
                        );
                    }
                }
            }
        }
    }
}

/// What holds of what is read of the comments of a body.
spec fn sound(s: Seq<char>, draft: DraftView, tokens: Seq<TokenView>, n: int) -> bool {
    &&& draft.hidden == Seq::new(n as nat, |i: int| complete_lines(s, token_span(tokens[i])))
    &&& draft.ids.len() == draft.comments.len() + if draft.open is Some {
        1nat
    } else {
        0nat
    }
    &&& draft.ranges.len() == draft.comments.len()
    &&& n == draft.ids.len() + draft.comments.len() + if draft.registry is Some {
        1nat
    } else {
        0nat
    }
    &&& draft.registry matches Some(marker) ==> exists|i: int|
        0 <= i < n && #[trigger] tokens[i] == TokenView::Registry(marker)
    &&& forall|i: int|
        0 <= i < draft.comments.len() ==> (#[trigger] draft.comments[i]).id == draft.ids[i]
            && is_sound_comment(draft.comments[i])
    &&& draft.open matches Some((meta, _)) ==> meta.id == draft.ids.last() && record::meta_check(
        meta,
    ) is Ok
    &&& forall|i: int, j: int|
        0 <= i < j < draft.ids.len() ==> !text::alike(
            #[trigger] draft.ids[i],
            #[trigger] draft.ids[j],
        )
}

/// Whether a comment is of version one, has an id, an author and a creation time as demanded, and a
/// text that is not blank.
pub open spec fn is_sound_comment(comment: CommentView) -> bool {
    &&& comment.version == 1
    &&& record::id_check(comment.id) is Ok
    &&& text::trim(comment.author) == comment.author
    &&& record::author_check(comment.author) is Ok
    &&& record::time_check(comment.created_at) is Ok
    &&& !text::is_blank(comment.body)
}

proof fn lemma_step_sound(s: Seq<char>, draft: DraftView, tokens: Seq<TokenView>, n: int)
    requires
        0 <= n < tokens.len(),
        sound(s, draft, tokens, n),
    ensures
        step(s, draft, tokens[n]) matches Ok(next) ==> sound(s, next, tokens, n + 1),
{
    let lines = Seq::new(n as nat, |i: int| complete_lines(s, token_span(tokens[i])));
    assert(Seq::new((n + 1) as nat, |i: int| complete_lines(s, token_span(tokens[i])))
        =~= lines.push(complete_lines(s, token_span(tokens[n]))));
    if let Ok(next) = step(s, draft, tokens[n]) {
        assert(next.hidden =~= Seq::new(
            (n + 1) as nat,
            |i: int| complete_lines(s, token_span(tokens[i])),
        ));
        if let TokenView::Registry(span) = tokens[n] {
            assert(tokens[n] == TokenView::Registry(span));
        } else if let Some(marker) = draft.registry {
            let i = choose|i: int| 0 <= i < n && #[trigger] tokens[i] == TokenView::Registry(marker);
            assert(tokens[i] == TokenView::Registry(next.registry->0));
        }
        if let TokenView::End(id, span) = tokens[n] {
            let (meta, start) = draft.open->0;
            let comment = next.comments.last();
            assert(is_sound_comment(comment));
            assert(next.comments == draft.comments.push(comment));
        }
    }
}

proof fn lemma_gathered_sound(s: Seq<char>, tokens: Seq<TokenView>, n: int, draft: DraftView)
    requires
        0 <= n <= tokens.len(),
        sound(s, draft, tokens, n),
    ensures
        gathered(s, tokens, n, draft) matches Ok(last) ==> sound(
            s,
            last,
            tokens,
            tokens.len() as int,
        ),
    decreases tokens.len() - n,
{
    if n < tokens.len() {
        lemma_step_sound(s, draft, tokens, n);
        if let Ok(next) = step(s, draft, tokens[n]) {
            lemma_gathered_sound(s, tokens, n + 1, next);
        }
    }
}

proof fn lemma_document_sound(s: Seq<char>) -> (draft: DraftView)
    requires
        document(s) is Ok,
    ensures
        sound(s, draft, tokens(s)->Ok_0, tokens(s)->Ok_0.len() as int),
        draft.comments == document(s)->Ok_0.comments,
        draft.hidden == document(s)->Ok_0.hidden,
        draft.ranges == document(s)->Ok_0.ranges,
        gathered(s, tokens(s)->Ok_0, 0, blank_draft()) == Ok::<DraftView, Failure>(draft),
        finished(s, draft) == document(s),
{
    let list = tokens(s)->Ok_0;
    assert(Seq::new(0, |i: int| complete_lines(s, token_span(list[i]))) =~= Seq::empty());
    lemma_gathered_sound(s, list, 0, blank_draft());
    gathered(s, list, 0, blank_draft())->Ok_0
}

/// No two comments of a body have one id, whatever the case of its letters.
pub proof fn comment_ids_are_distinct(s: Seq<char>, i: int, j: int)
    requires
        document(s) is Ok,
        0 <= i < j < document(s)->Ok_0.comments.len(),
    ensures
        !text::alike(document(s)->Ok_0.comments[i].id, document(s)->Ok_0.comments[j].id),
{
    let draft = lemma_document_sound(s);
    assert(draft.comments[i].id == draft.ids[i]);
    assert(draft.comments[j].id == draft.ids[j]);
}

/// Each comment of a body is of version one, has an id, an author and a creation time as demanded,
/// and a text that is not blank.
pub proof fn comments_are_sound(s: Seq<char>, i: int)
    requires
        document(s) is Ok,
        0 <= i < document(s)->Ok_0.comments.len(),
    ensures
        is_sound_comment(document(s)->Ok_0.comments[i]),
{
    let draft = lemma_document_sound(s);
    assert(draft.comments[i].id == draft.ids[i]);
}

/// The control lines of a body are whole lines, one behind the other.
pub proof fn hidden_ranges_are_whole_lines(s: Seq<char>, i: int, j: int)
    requires
        source::fits(s),
        document(s) is Ok,
        0 <= i < document(s)->Ok_0.hidden.len(),
        0 <= j < document(s)->Ok_0.hidden.len(),
    ensures
        is_whole_lines(s, document(s)->Ok_0.hidden[i]),
        i < j ==> document(s)->Ok_0.hidden[i].end <= document(s)->Ok_0.hidden[j].start,
{
    let draft = lemma_document_sound(s);
    let list = tokens(s)->Ok_0;
    lemma_tokens_places(s, 0, Seq::empty());
    lemma_fits_len(s);
    let first = token_span(list[i]);
    let second = token_span(list[j]);
    let lines = complete_lines(s, first);
    text::lemma_line_end(s, first.end as int);
    assert(text::begins_line(s, first.start as int));
    if i < j {
        assert(first.end <= second.start);
        assert(text::begins_line(s, second.start as int));
        if !(first.end > 0 && s[first.end - 1] == '\n') {
            text::lemma_line_start(s, second.start as int);
            assert(s[second.start - 1] == '\n');
            if lines.end > second.start {
                assert(s[second.start - 1] != '\n');
            }
        }
    }
}

/// A comment has two control records, and the registry one: so many lines are hidden.
pub proof fn hidden_ranges_are_counted(s: Seq<char>)
    requires
        document(s) is Ok,
    ensures
        ({
            let document = document(s)->Ok_0;
            document.hidden.len() == 2 * document.comments.len() + if document.registry is Some {
                1nat
            } else {
                0nat
            }
        }),
{
    let draft = lemma_document_sound(s);
}

/// Whether what is read of the comments stands in whole lines, one behind the other, in front of an
/// index.
spec fn in_lines(s: Seq<char>, draft: DraftView, at: int) -> bool {
    &&& draft.open matches Some((_, span)) ==> text::begins_line(s, span.start as int) && span.start
        < span.end <= at
    &&& forall|i: int|
        0 <= i < draft.ranges.len() ==> is_whole_lines(s, #[trigger] draft.ranges[i]) && closes(
            s,
            draft.ranges[i].end as int,
        ) && draft.ranges[i].end <= at && (draft.open matches Some((_, span))
            ==> draft.ranges[i].end <= span.start)
    &&& forall|i: int, j: int|
        0 <= i < j < draft.ranges.len() ==> (#[trigger] draft.ranges[i]).end <= (
        #[trigger] draft.ranges[j]).start
}

proof fn lemma_gathered_lines(
    s: Seq<char>,
    tokens: Seq<TokenView>,
    n: int,
    draft: DraftView,
    at: int,
)
    requires
        0 <= n <= tokens.len(),
        0 <= at,
        in_sequence(tokens, s.len() as int),
        begin_lines(s, tokens),
        in_lines(s, draft, at),
        n < tokens.len() ==> at <= token_span(tokens[n]).start,
    ensures
        gathered(s, tokens, n, draft) matches Ok(last) ==> exists|end: int| in_lines(s, last, end),
    decreases tokens.len() - n,
{
    if n < tokens.len() {
        if let Ok(next) = step(s, draft, tokens[n]) {
            let span = token_span(tokens[n]);
            assert(outline::lies_in(span, s.len() as int));
            if n + 1 < tokens.len() {
                assert(span.end <= token_span(tokens[n + 1]).start);
            }
            if let TokenView::End(_, _) = tokens[n] {
                let (_, start) = draft.open->0;
                let range = Span { start: start.start, end: span.end };
                assert(is_whole_lines(s, range));
                assert(next.ranges == draft.ranges.push(range));
            }
            assert(in_lines(s, next, span.end as int));
            lemma_gathered_lines(s, tokens, n + 1, next, span.end as int);
        }
    } else {
        assert(in_lines(s, draft, at));
    }
}

/// Each comment of a body takes a range of whole lines, one behind the other, in the content of the
/// section of the registry itself, in front of its first subsection.
pub proof fn comments_are_whole_lines(s: Seq<char>)
    requires
        source::fits(s),
        document(s) is Ok,
    ensures
        ({
            let document = document(s)->Ok_0;
            &&& document.ranges.len() == document.comments.len()
            &&& forall|i: int|
                0 <= i < document.ranges.len() ==> is_whole_lines(s, #[trigger] document.ranges[i])
                    && (document.registry matches Some(registry) && registry.section.content_start
                    <= document.ranges[i].start && document.ranges[i].end <= registry.direct_end
                    <= registry.section.end)
            &&& forall|i: int, j: int|
                0 <= i < j < document.ranges.len() ==> (#[trigger] document.ranges[i]).end <= (
                #[trigger] document.ranges[j]).start
        }),
{
    let draft = lemma_document_sound(s);
    let list = tokens(s)->Ok_0;
    let read = document(s)->Ok_0;
    lemma_tokens_places(s, 0, Seq::empty());
    lemma_gathered_lines(s, list, 0, blank_draft(), 0);
    let at = choose|at: int| in_lines(s, draft, at);
    assert(in_lines(s, draft, at));
    if read.ranges.len() > 0 {
        registry_is_a_section(s);
        let marker = draft.registry->0;
        let sections = structural_sections(s, draft.ranges)->0;
        let k = outline::deepest(sections, marker.start as int, sections.len())->0;
        outline::lemma_deepest(sections, marker.start as int, sections.len());
        let i = choose|i: int| 0 <= i < list.len() && #[trigger] list[i] == TokenView::Registry(marker);
        assert(token_span(list[i]) == marker);
        assert(all_registered(draft.ranges, marker, read.registry->0.direct_end));
        lemma_direct_end_within(sections, sections[k], 0);
    }
}

proof fn lemma_direct_end_within(sections: Seq<RegionView>, parent: RegionView, from: int)
    ensures
        outline::direct_end(sections, parent, from) <= parent.end,
    decreases sections.len() - from,
{
    if 0 <= from < sections.len() && !outline::is_child(sections[from], parent) {
        lemma_direct_end_within(sections, parent, from + 1);
    }
}

/// The section of the registry is one of the sections outside the comments. It holds the registry
/// marker in its content, and no section that does is deeper.
pub proof fn registry_is_a_section(s: Seq<char>)
    requires
        document(s) is Ok,
        document(s)->Ok_0.registry is Some,
    ensures
        ({
            let document = document(s)->Ok_0;
            let section = document.registry->0.section;
            let sections = structural_sections(s, document.ranges);
            &&& sections is Some && sections->0.contains(section)
            &&& exists|i: int|
                0 <= i < tokens(s)->Ok_0.len() && (#[trigger] tokens(s)->Ok_0[i]) is Registry
                    && is_innermost(
                    sections->0,
                    section,
                    token_span(tokens(s)->Ok_0[i]).start as int,
                )
        }),
{
    let draft = lemma_document_sound(s);
    let list = tokens(s)->Ok_0;
    let marker = draft.registry->0;
    let sections = structural_sections(s, draft.ranges)->0;
    let k = outline::deepest(sections, marker.start as int, sections.len())->0;
    outline::lemma_deepest(sections, marker.start as int, sections.len());
    assert(sections[k] == document(s)->Ok_0.registry->0.section);
    let i = choose|i: int| 0 <= i < list.len() && #[trigger] list[i] == TokenView::Registry(marker);
    assert(list[i] is Registry);
}

/// Whether a section holds an index in its content, and no other one that does is deeper.
pub open spec fn is_innermost(sections: Seq<RegionView>, section: RegionView, at: int) -> bool {
    &&& outline::holds(section, at)
    &&& forall|k: int|
        0 <= k < sections.len() && outline::holds(#[trigger] sections[k], at) ==> sections[k].level
            <= section.level
}

/// The comments of a body take whole lines, the last of which is none of text.
pub proof fn lemma_ranges_close(s: Seq<char>)
    requires
        source::fits(s),
        document(s) is Ok,
    ensures
        forall|i: int|
            0 <= i < document(s)->Ok_0.ranges.len() ==> is_whole_lines(
                s,
                #[trigger] document(s)->Ok_0.ranges[i],
            ) && closes(s, document(s)->Ok_0.ranges[i].end as int),
{
    let draft = lemma_document_sound(s);
    lemma_tokens_places(s, 0, Seq::empty());
    lemma_gathered_lines(s, tokens(s)->Ok_0, 0, blank_draft(), 0);
    let at = choose|at: int| in_lines(s, draft, at);
    assert(in_lines(s, draft, at));
}

/// A heading outside whole lines begins outside them.
proof fn lemma_heading_outside(s: Seq<char>, excluded: Seq<Span>, at: int)
    requires
        0 <= at <= s.len() <= usize::MAX,
        forall|i: int|
            0 <= i < excluded.len() ==> is_whole_lines(s, #[trigger] excluded[i]) && closes(
                s,
                excluded[i].end as int,
            ),
        !outline::covered(excluded, at),
    ensures
        heading_at(s, at) matches Some(heading) ==> text::begins_line(s, heading.start as int)
            && heading.start < s.len() && !outline::covered(excluded, heading.start as int),
{
    let start = text::line_start(s, at);
    let end = text::line_end(s, start);
    text::lemma_line_start(s, at);
    text::lemma_line_end(s, start);
    let line = s.subrange(start, end);
    let kept = text::trim_end(line, CharClass::LineEnd);
    let trimmed = text::trim_start(kept, CharClass::Space);
    text::lemma_trail_is(line, CharClass::LineEnd);
    text::lemma_lead_is(kept, CharClass::Space);
    if let Some(heading) = heading_at(s, at) {
        assert(trimmed.len() > 0 && trimmed[0] == '#');
        if outline::covered(excluded, start) {
            let i = choose|i: int|
                0 <= i < excluded.len() && (#[trigger] excluded[i]).start <= start
                    < excluded[i].end;
            let range = excluded[i];
            assert(range.end <= at);
            assert(s[range.end - 1] != '\n');
            assert(at == s.len());
            assert(s[start] == '<');
            assert(line[0] == '<');
        }
    }
}

proof fn lemma_headings_outside(
    s: Seq<char>,
    spans: Seq<Span>,
    excluded: Seq<Span>,
    i: int,
    read: Seq<HeadingView>,
)
    requires
        s.len() <= usize::MAX,
        outline::all_lie_in(spans, s.len() as int),
        forall|k: int|
            0 <= k < excluded.len() ==> is_whole_lines(s, #[trigger] excluded[k]) && closes(
                s,
                excluded[k].end as int,
            ),
        0 <= i,
        begin_outside(s, read, excluded),
    ensures
        begin_outside(s, headings_from(s, spans, excluded, i, read), excluded),
    decreases spans.len() - i,
{
    if i < spans.len() {
        if outline::covered(excluded, spans[i].start as int) {
            lemma_headings_outside(s, spans, excluded, i + 1, read);
        } else {
            assert(outline::lies_in(spans[i], s.len() as int));
            lemma_heading_outside(s, excluded, spans[i].start as int);
            match heading_at(s, spans[i].start as int) {
                Some(heading) => {
                    lemma_headings_outside(s, spans, excluded, i + 1, read.push(heading));
                },
                None => {
                    lemma_headings_outside(s, spans, excluded, i + 1, read);
                },
            }
        }
    }
}

/// Whether headings begin lines of a text, outside spans of it.
pub open spec fn begin_outside(
    s: Seq<char>,
    headings: Seq<HeadingView>,
    excluded: Seq<Span>,
) -> bool {
    forall|i: int|
        0 <= i < headings.len() ==> text::begins_line(s, (#[trigger] headings[i]).start as int)
            && headings[i].start < s.len() && !outline::covered(excluded, headings[i].start as int)
}

proof fn lemma_peer_begins(
    s: Seq<char>,
    headings: Seq<HeadingView>,
    excluded: Seq<Span>,
    from: int,
    level: u8,
)
    requires
        s.len() <= usize::MAX,
        begin_outside(s, headings, excluded),
    ensures
        ({
            let end = outline::next_peer(headings, from, level, s.len() as usize);
            end == s.len() || text::begins_line(s, end as int)
        }),
    decreases headings.len() - from,
{
    if 0 <= from < headings.len() && headings[from].level > level {
        lemma_peer_begins(s, headings, excluded, from + 1, level);
    }
}

/// The sections among which that of the registry is looked for begin lines, and end with lines. None
/// of them begins in a comment.
pub proof fn sections_are_outside_the_comments(s: Seq<char>)
    requires
        source::fits(s),
        document(s) is Ok,
    ensures
        structural_sections(s, document(s)->Ok_0.ranges) matches Some(sections) ==> forall|i: int|
            0 <= i < sections.len() ==> {
                let section = #[trigger] sections[i];
                &&& text::begins_line(s, section.start as int) && section.start < s.len()
                &&& section.end == s.len() || text::begins_line(s, section.end as int)
                &&& !outline::covered(document(s)->Ok_0.ranges, section.start as int)
            },
{
    let ranges = document(s)->Ok_0.ranges;
    lemma_fits_len(s);
    lemma_ranges_close(s);
    if let Some(spans) = found_outside(s, ranges, MarkKind::Heading) {
        lemma_located_lie_in(
            s,
            outside::commonmark(outline::masked(s, ranges)),
            MarkKind::Heading,
        );
        lemma_headings_outside(s, spans, ranges, 0, Seq::empty());
        let headings = headings_from(s, spans, ranges, 0, Seq::empty());
        let sections = structural_sections(s, ranges)->0;
        assert forall|i: int| 0 <= i < sections.len() implies {
            let section = #[trigger] sections[i];
            &&& text::begins_line(s, section.start as int) && section.start < s.len()
            &&& section.end == s.len() || text::begins_line(s, section.end as int)
            &&& !outline::covered(ranges, section.start as int)
        } by {
            assert(sections[i] == outline::region(headings, i, s.len() as usize));
            lemma_peer_begins(s, headings, ranges, i + 1, headings[i].level);
        }
    }
}

/// Whether a control record is what it is read as: the registry marker, the start record with its
/// metadata, or the line of an end marker.
pub open spec fn is_record(s: Seq<char>, token: TokenView) -> bool {
    match token {
        TokenView::Registry(span) => source_of(s, span) == COMMENTS_MARKER@,
        TokenView::Start(meta, span) => text::line_at(s, span.start as int) == COMMENT_START@
            && record::record_from(s, span.start as int, span.start as int) == Ok::<Span, Failure>(
            span,
        ) && record::record_metadata(source_of(s, span)) == Ok::<MetaView, Failure>(meta),
        TokenView::End(id, span) => text::line_at(s, span.start as int) == record::end_marker(id)
            && span.end == text::line_end(s, span.start as int),
    }
}

/// Whether all control records are what they are read as.
pub open spec fn are_records(s: Seq<char>, tokens: Seq<TokenView>) -> bool {
    forall|i: int| 0 <= i < tokens.len() ==> is_record(s, #[trigger] tokens[i])
}

proof fn lemma_end_is(s: Seq<char>, at: int, id: Seq<char>)
    requires
        0 <= at <= s.len() <= usize::MAX,
    ensures
        record::end_from(s, at, id) matches Ok(span) ==> span.start < s.len() && text::line_at(
            s,
            span.start as int,
        ) == record::end_marker(id) && span.end == text::line_end(s, span.start as int),
    decreases s.len() - at,
{
    if at < s.len() {
        text::lemma_line_end(s, at);
        lemma_end_is(s, text::line_end(s, at), id);
    }
}

proof fn lemma_tokens_records(s: Seq<char>, cursor: int, read: Seq<TokenView>)
    requires
        source::fits(s),
        0 <= cursor <= s.len(),
        are_records(s, read),
    ensures
        tokens_from(s, cursor, read) matches Ok(all) ==> are_records(s, all),
    decreases s.len() - cursor,
{
    lemma_fits_len(s);
    if cursor < s.len() {
        if let Some(spans) = html_from(s, cursor) {
            if let Some(i) = first_control(s, spans, 0) {
                lemma_first_control(s, spans, 0);
                lemma_registry_progress(s, cursor, spans, i);
                let span = spans[i];
                let at = span.start as int;
                if meaning(s, span) == Meaning::Registry {
                    lemma_tokens_records(
                        s,
                        span.end as int,
                        read.push(TokenView::Registry(span)),
                    );
                } else if meaning(s, span) == Meaning::Start {
                    if let Ok((meta, opening, closing)) = block_at(s, at) {
                        lemma_record_places(s, at, at);
                        lemma_end_bounds(s, opening.end as int, meta.id);
                        lemma_end_is(s, opening.end as int, meta.id);
                        let start = TokenView::Start(meta, opening);
                        let end = TokenView::End(meta.id, closing);
                        assert(text::line_at(s, at) == COMMENT_START@);
                        assert(is_record(s, start));
                        assert(is_record(s, end));
                        lemma_tokens_records(s, closing.end as int, read.push(start).push(end));
                    }
                }
            }
        }
    }
}

/// Whether a start record and the end marker behind it are those of a comment in a range.
spec fn is_pair(
    s: Seq<char>,
    tokens: Seq<TokenView>,
    a: int,
    range: Span,
    comment: CommentView,
) -> bool {
    &&& 0 <= a && a + 1 < tokens.len()
    &&& tokens[a] matches TokenView::Start(meta, opening) && tokens[a + 1] matches TokenView::End(
        id,
        closing,
    ) && id == meta.id && range == (Span { start: opening.start, end: closing.end })
        && comment_in(s.subrange(opening.end as int, closing.start as int), meta) == Ok::<
        CommentView,
        Failure,
    >(comment)
}

/// Whether the comments that are read are those of control records.
spec fn paired(s: Seq<char>, draft: DraftView, tokens: Seq<TokenView>, n: int) -> bool {
    &&& draft.ranges.len() == draft.comments.len()
    &&& draft.open matches Some((meta, span)) ==> n > 0 && tokens[n - 1] == TokenView::Start(
        meta,
        span,
    )
    &&& forall|k: int|
        0 <= k < draft.comments.len() ==> has_pair(
            s,
            tokens,
            draft.ranges[k],
            #[trigger] draft.comments[k],
        )
}

/// Whether there are a start record and an end marker for a comment in a range.
spec fn has_pair(s: Seq<char>, tokens: Seq<TokenView>, range: Span, comment: CommentView) -> bool {
    exists|a: int| is_pair(s, tokens, a, range, comment)
}

proof fn lemma_gathered_pairs(s: Seq<char>, tokens: Seq<TokenView>, n: int, draft: DraftView)
    requires
        0 <= n <= tokens.len(),
        paired(s, draft, tokens, n),
    ensures
        gathered(s, tokens, n, draft) matches Ok(last) ==> paired(
            s,
            last,
            tokens,
            tokens.len() as int,
        ),
    decreases tokens.len() - n,
{
    if n < tokens.len() {
        if let Ok(next) = step(s, draft, tokens[n]) {
            assert forall|k: int| 0 <= k < next.comments.len() implies has_pair(
                s,
                tokens,
                next.ranges[k],
                #[trigger] next.comments[k],
            ) by {
                if k < draft.comments.len() {
                    assert(draft.comments[k] == next.comments[k]);
                } else {
                    assert(is_pair(s, tokens, n - 1, next.ranges[k], next.comments[k]));
                }
            }
            lemma_gathered_pairs(s, tokens, n + 1, next);
        }
    }
}

/// Whether a range of a body is the block of a comment: it begins with the line of the start record and
/// ends with the line of the end marker, and what is visible of the comment, its attribution and its
/// text, stands between the start record, which ends at `from`, and the end marker, which begins at
/// `to`.
pub open spec fn is_block(
    s: Seq<char>,
    range: Span,
    from: int,
    to: int,
    comment: CommentView,
) -> bool {
    let content = s.subrange(from, to);
    let meta = MetaView {
        version: comment.version,
        id: comment.id,
        author: comment.author,
        created_at: comment.created_at,
    };
    &&& range.start < from <= to < range.end <= s.len()
    &&& text::begins_line(s, range.start as int)
    &&& text::line_at(s, range.start as int) == COMMENT_START@
    &&& record::record_from(s, range.start as int, range.start as int) == Ok::<Span, Failure>(
        Span { start: range.start, end: from as usize },
    )
    &&& text::begins_line(s, to)
    &&& text::line_at(s, to) == record::end_marker(comment.id)
    &&& text::line_end(s, to) == range.end
    &&& comment_in(content, meta) == Ok::<CommentView, Failure>(comment)
    &&& text::occurs(content, record::attribution(comment.author, comment.created_at))
    &&& text::occurs(content, comment.body)
}

/// What is read of a comment stands in its content.
proof fn lemma_content_holds(content: Seq<char>, meta: MetaView)
    ensures
        comment_in(content, meta) matches Ok(comment) ==> text::occurs(
            content,
            record::attribution(comment.author, comment.created_at),
        ) && text::occurs(content, comment.body),
{
    if let Ok(comment) = comment_in(content, meta) {
        let lead = text::lead(content, CharClass::LineEnd) as int;
        let first = text::trim_start(content, CharClass::LineEnd);
        let inner = text::trim_both(content, CharClass::LineEnd);
        text::lemma_lead_is(content, CharClass::LineEnd);
        text::lemma_trail_is(first, CharClass::LineEnd);
        let feed = text::next_index(inner, '\n', 0);
        text::lemma_next_index_is(inner, '\n', 0);
        let line = text::trim_end(inner.take(feed), CharClass::Return);
        text::lemma_trail_is(inner.take(feed), CharClass::Return);
        assert(content.subrange(lead, lead + line.len()) =~= line);
        assert(text::occurs_at(content, line, lead));
        let rest = inner.skip(feed + 1);
        let skipped = if text::begins(rest, seq!['\r', '\n']) {
            2int
        } else {
            1int
        };
        let tail = rest.skip(skipped);
        text::lemma_trail_is(tail, CharClass::LineEnd);
        let at = lead + feed + 1 + skipped;
        assert(content.subrange(at, at + comment.body.len()) =~= comment.body);
        assert(text::occurs_at(content, comment.body, at));
    }
}

/// Each comment of a body is a block in its range: it begins with the start record, holds the attribution
/// and the text, and ends with the end marker. No hidden range covers anything of what is visible.
pub proof fn comments_are_blocks(s: Seq<char>, i: int)
    requires
        source::fits(s),
        document(s) is Ok,
        0 <= i < document(s)->Ok_0.comments.len(),
    ensures
        exists|from: int, to: int|
            #[trigger] is_block(
                s,
                document(s)->Ok_0.ranges[i],
                from,
                to,
                document(s)->Ok_0.comments[i],
            ) && forall|j: int|
                0 <= j < document(s)->Ok_0.hidden.len() ==> (#[trigger] document(
                    s,
                )->Ok_0.hidden[j]).end <= from || to <= document(s)->Ok_0.hidden[j].start,
{
    let draft = lemma_document_sound(s);
    let list = tokens(s)->Ok_0;
    let read = document(s)->Ok_0;
    lemma_fits_len(s);
    lemma_gathered_pairs(s, list, 0, blank_draft());
    lemma_tokens_records(s, 0, Seq::empty());
    lemma_tokens_places(s, 0, Seq::empty());
    assert(draft.comments[i] == read.comments[i]);
    assert(has_pair(s, list, draft.ranges[i], draft.comments[i]));
    let a = choose|a: int| is_pair(s, list, a, draft.ranges[i], draft.comments[i]);
    assert(is_pair(s, list, a, draft.ranges[i], draft.comments[i]));
    assert(is_record(s, list[a]));
    assert(is_record(s, list[a + 1]));
    let opening = token_span(list[a]);
    let closing = token_span(list[a + 1]);
    let comment = read.comments[i];
    let from = opening.end as int;
    let to = closing.start as int;
    assert(opening.end <= closing.start);
    assert(text::begins_line(s, closing.start as int));
    assert(text::begins_line(s, opening.start as int));
    let meta = MetaView {
        version: comment.version,
        id: comment.id,
        author: comment.author,
        created_at: comment.created_at,
    };
    assert(list[a] matches TokenView::Start(other, _) && other == meta);
    lemma_content_holds(s.subrange(from, to), meta);
    lemma_record_places(s, opening.start as int, opening.start as int);
    text::lemma_line_end(s, to);
    assert(is_block(s, read.ranges[i], from, to, comment));
    text::lemma_line_start(s, from);
    assert(s[from - 1] == '\n');
    assert(read.hidden[a] == complete_lines(s, opening));
    assert(read.hidden[a].end == from);
    assert(read.hidden[a + 1] == complete_lines(s, closing));
    assert(read.hidden[a + 1].start == to);
    assert forall|j: int| 0 <= j < read.hidden.len() implies (#[trigger] read.hidden[j]).end <= from
        || to <= read.hidden[j].start by {
        if j < a {
            hidden_ranges_are_whole_lines(s, j, a);
        } else if j > a + 1 {
            hidden_ranges_are_whole_lines(s, a + 1, j);
        }
    }
}

/// Each hidden range of a body begins with a control marker.
pub proof fn hidden_ranges_begin_with_markers(s: Seq<char>, i: int)
    requires
        source::fits(s),
        document(s) is Ok,
        0 <= i < document(s)->Ok_0.hidden.len(),
    ensures
        text::occurs_at(s, "<!-- kbmd:comment"@, document(s)->Ok_0.hidden[i].start as int),
{
    let draft = lemma_document_sound(s);
    let list = tokens(s)->Ok_0;
    lemma_fits_len(s);
    lemma_tokens_records(s, 0, Seq::empty());
    lemma_tokens_places(s, 0, Seq::empty());
    let span = token_span(list[i]);
    let at = span.start as int;
    assert(is_record(s, list[i]));
    assert(text::begins_line(s, at));
    assert(outline::lies_in(span, s.len() as int));
    assert(document(s)->Ok_0.hidden[i] == complete_lines(s, span));
    lemma_record_begins(s, list[i]);
}

/// The control markers have one beginning.
proof fn lemma_markers(id: Seq<char>)
    ensures
        ({
            let part = "<!-- kbmd:comment"@;
            let n = part.len() as int;
            &&& n <= COMMENTS_MARKER@.len() && COMMENTS_MARKER@.take(n) == part
            &&& n <= COMMENT_START@.len() && COMMENT_START@.take(n) == part
            &&& n <= record::end_marker(id).len() && record::end_marker(id).take(n) == part
        }),
{
    reveal_strlit("<!-- kbmd:comment");
    reveal_strlit("<!-- kbmd:comments:v1 -->");
    reveal_strlit("<!-- kbmd:comment:v1");
    reveal_strlit("<!-- kbmd:comment:end ");
    let part = "<!-- kbmd:comment"@;
    let n = part.len() as int;
    assert(COMMENTS_MARKER@ == "<!-- kbmd:comments:v1 -->"@);
    assert(COMMENT_START@ == "<!-- kbmd:comment:v1"@);
    assert(COMMENT_END_PREFIX@ == "<!-- kbmd:comment:end "@);
    assert(COMMENTS_MARKER@.take(n) =~= part);
    assert(COMMENT_START@.take(n) =~= part);
    assert(COMMENT_END_PREFIX@.take(n) =~= part);
    assert(record::end_marker(id).take(n) =~= COMMENT_END_PREFIX@.take(n));
}

/// A control record begins with a control marker.
proof fn lemma_record_begins(s: Seq<char>, token: TokenView)
    requires
        is_record(s, token),
        outline::lies_in(token_span(token), s.len() as int),
        token_span(token).start < s.len(),
    ensures
        text::occurs_at(s, "<!-- kbmd:comment"@, token_span(token).start as int),
{
    let span = token_span(token);
    let at = span.start as int;
    let part = "<!-- kbmd:comment"@;
    text::lemma_line_end(s, at);
    let line = s.subrange(at, text::line_end(s, at));
    lemma_held_begins(line);
    match token {
        TokenView::Registry(_) => {
            let piece = s.subrange(at, span.end as int);
            lemma_markers(Seq::empty());
            text::lemma_trail_is(piece, CharClass::LineEnd);
            assert(source_of(s, span) =~= piece.take(source_of(s, span).len() as int));
            lemma_starts(s, at, span.end as int, source_of(s, span), part);
        },
        TokenView::Start(_, _) => {
            lemma_markers(Seq::empty());
            lemma_starts(s, at, text::line_end(s, at), COMMENT_START@, part);
        },
        TokenView::End(id, _) => {
            lemma_markers(id);
            lemma_starts(s, at, text::line_end(s, at), record::end_marker(id), part);
        },
    }
}

/// What a line holds is its beginning.
proof fn lemma_held_begins(line: Seq<char>)
    ensures
        text::line_text(line).len() <= line.len(),
        line.take(text::line_text(line).len() as int) == text::line_text(line),
{
    assert(line.take(line.len() as int) =~= line);
}

/// A text that begins a range and begins with a part has the part there.
proof fn lemma_starts(s: Seq<char>, at: int, end: int, line: Seq<char>, part: Seq<char>)
    requires
        0 <= at <= end <= s.len(),
        line.len() <= end - at,
        s.subrange(at, end).take(line.len() as int) == line,
        part.len() <= line.len(),
        line.take(part.len() as int) =~= part,
    ensures
        text::occurs_at(s, part, at),
{
    assert(s.subrange(at, at + part.len()) =~= part) by {
        assert forall|k: int| 0 <= k < part.len() implies s[at + k] == part[k] by {
            assert(s.subrange(at, end).take(line.len() as int)[k] == s[at + k]);
            assert(line.take(part.len() as int)[k] == line[k]);
        }
    }
}

} // verus!
