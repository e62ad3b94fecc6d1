//! The YAML frontmatter of a Markdown file: where it ends and where the body begins.

use crate::error;
use crate::error::{Error, ErrorKind, Failure};
use crate::text;
use crate::text::CharClass;
use vstd::prelude::*;
use vstd::slice::slice_subrange;

verus! {

/// A document as specifications speak of it: its YAML text and its body.
#[verifier::ext_equal]
pub struct PartsView {
    pub yaml: Seq<char>,
    pub body: Seq<char>,
}

/// A document: its metadata and its body.
#[derive(Clone, Debug, PartialEq, Eq)]
pub struct FrontmatterDocument<T> {
    pub metadata: T,
    pub body: String,
}

impl View for FrontmatterDocument<String> {
    type V = PartsView;

    open spec fn view(&self) -> PartsView {
        PartsView { yaml: self.metadata@, body: self.body@ }
    }
}

/// A text without a byte order mark before it.
pub open spec fn unmarked(s: Seq<char>) -> Seq<char> {
    if s.len() > 0 && s[0] == '\u{feff}' {
        s.skip(1)
    } else {
        s
    }
}

/// Whether a line ends the frontmatter.
pub open spec fn is_delimiter(line: Seq<char>) -> bool {
    line == "---"@ || line == "..."@
}

/// Where the first line from an index on that ends the frontmatter begins.
pub open spec fn delimiter_from(s: Seq<char>, at: int) -> Option<int>
    decreases s.len() - at,
{
    if at < 0 || at >= s.len() {
        None
    } else if is_delimiter(text::line_at(s, at)) {
        Some(at)
    } else {
        proof {
            text::lemma_line_end(s, at);
        }
        delimiter_from(s, text::line_end(s, at))
    }
}

/// A body without the one blank line that separates it from the frontmatter.
pub open spec fn body_of(rest: Seq<char>) -> Seq<char> {
    if text::begins(rest, seq!['\r', '\n']) {
        rest.skip(2)
    } else if text::begins(rest, seq!['\n']) {
        rest.skip(1)
    } else {
        rest
    }
}

/// The YAML text and the body of a document.
pub open spec fn parts(input: Seq<char>) -> Result<PartsView, Failure> {
    let s = unmarked(input);
    let start = text::line_end(s, 0);
    if s.len() == 0 {
        Err(error::plain(ErrorKind::EmptyDocument))
    } else if text::line_at(s, 0) != "---"@ {
        Err(error::plain(ErrorKind::NoFrontmatter))
    } else {
        match delimiter_from(s, start) {
            None => Err(error::plain(ErrorKind::OpenFrontmatter)),
            Some(end) => {
                let yaml = text::trim_end(s.subrange(start, end), CharClass::LineEnd);
                if text::is_blank(yaml) {
                    Err(error::plain(ErrorKind::EmptyFrontmatter))
                } else {
                    Ok(PartsView { yaml, body: body_of(s.skip(text::line_end(s, end))) })
                }
            },
        }
    }
}

/// Drops the one blank line that separates a body from the frontmatter.
fn take_body(rest: &[char]) -> (r: String)
    ensures
        r@ == body_of(rest@),
{
    let skipped: usize = if rest.len() >= 2 && rest[0] == '\r' && rest[1] == '\n' {
        assert(rest@.subrange(0, 2) =~= seq!['\r', '\n']);
        2
    } else {
        proof {
            if text::begins(rest@, seq!['\r', '\n']) {
                assert(rest@.subrange(0, 2)[0] == '\r' && rest@.subrange(0, 2)[1] == '\n');
            }
        }
        if rest.len() >= 1 && rest[0] == '\n' {
            assert(rest@.subrange(0, 1) =~= seq!['\n']);
            1
        } else {
            proof {
                if text::begins(rest@, seq!['\n']) {
                    assert(rest@.subrange(0, 1)[0] == '\n');
                }
            }
            0
        }
    };
    let body = slice_subrange(rest, skipped, rest.len());
    assert(body@ =~= body_of(rest@));
    text::string_of(body)
}

/// Takes a document apart: the YAML text of its frontmatter and its body.
///
/// One blank line conventionally separates the two. It is removed; every further character of the
/// body stays.
pub fn parse(input: &str) -> (r: Result<FrontmatterDocument<String>, Error>)
    ensures
        error::agrees(r, parts(input@)),
{
    let chars = text::chars_of(input);
    let s = if chars.len() > 0 && chars[0] == '\u{feff}' {
        slice_subrange(chars.as_slice(), 1, chars.len())
    } else {
        chars.as_slice()
    };
    assert(s@ =~= unmarked(input@));
    if s.len() == 0 {
        return Err(Error::plain(ErrorKind::EmptyDocument));
    }
    let dashes = text::chars_of("---");
    let dots = text::chars_of("...");
    let start = text::end_of_line(s, 0);
    if !text::same(text::text_of_line(slice_subrange(s, 0, start)), &dashes) {
        return Err(Error::plain(ErrorKind::NoFrontmatter));
    }
    let mut at: usize = start;
    while at < s.len()
        invariant
            start <= at <= s@.len(),
            s@.len() > 0,
            s@ == unmarked(input@),
            start == text::line_end(s@, 0),
            text::line_at(s@, 0) == "---"@,
            dashes@ == "---"@,
            dots@ == "..."@,
            delimiter_from(s@, at as int) == delimiter_from(s@, start as int),
        decreases s@.len() - at,
    {
        let end = text::end_of_line(s, at);
        let line = text::text_of_line(slice_subrange(s, at, end));
        if text::same(line, &dashes) || text::same(line, &dots) {
            let yaml = text::without_trail(slice_subrange(s, start, at), CharClass::LineEnd);
            if text::blank(yaml) {
                return Err(Error::plain(ErrorKind::EmptyFrontmatter));
            }
            let rest = slice_subrange(s, end, s.len());
            assert(rest@ =~= s@.skip(end as int));
            return Ok(
                FrontmatterDocument { metadata: text::string_of(yaml), body: take_body(rest) },
            );
        }
        at = end;
    }
    Err(Error::plain(ErrorKind::OpenFrontmatter))
}

/// A document with the given YAML text and body.
pub open spec fn joined(yaml: Seq<char>, body: Seq<char>) -> Seq<char> {
    let head = "---\n"@ + text::trim_end(yaml, CharClass::Space) + "\n---\n"@;
    if body.len() == 0 {
        head
    } else {
        head + "\n"@ + body
    }
}

/// Puts a document together.
pub fn serialize(yaml: &str, body: &str) -> (r: String)
    ensures
        r@ == joined(yaml@, body@),
{
    let chars = text::chars_of(yaml);
    let body = text::chars_of(body);
    let mut out = text::chars_of("---\n");
    text::push_all(&mut out, text::without_trail(&chars, CharClass::Space));
    text::push_all(&mut out, &text::chars_of("\n---\n"));
    if body.len() > 0 {
        text::push_all(&mut out, &text::chars_of("\n"));
        text::push_all(&mut out, &body);
    }
    text::string_of(&out)
}

proof fn lemma_delimiter_skips(p: Seq<char>, q: Seq<char>, r: Seq<char>, k: int)
    requires
        0 <= k <= q.len(),
        q.len() > 0,
        q.last() == '\n',
        k < q.len() ==> text::begins_line(q, k),
        forall|i: int|
            0 <= i < q.len() && text::begins_line(q, i) ==> !is_delimiter(
                #[trigger] text::line_at(q, i),
            ),
    ensures
        delimiter_from(p + q + r, p.len() + k) == delimiter_from(
            p + q + r,
            (p.len() + q.len()) as int,
        ),
    decreases q.len() - k,
{
    if k < q.len() {
        text::lemma_line_shift(p, q, r, k);
        lemma_delimiter_skips(p, q, r, text::line_end(q, k));
    }
}

proof fn lemma_dashes(p: Seq<char>, r: Seq<char>)
    ensures
        text::line_at(p + "---\n"@ + r, p.len() as int) == "---"@,
        text::line_end(p + "---\n"@ + r, p.len() as int) == p.len() + 4,
{
    reveal_strlit("---\n");
    reveal_strlit("---");
    let line = "---\n"@;
    text::lemma_line_shift(p, line, r, 0);
    text::lemma_next_index(line, '\n', 0, 3);
    assert(line.subrange(0, 4) =~= line);
    assert(line.subrange(3, 4) =~= seq!['\n']);
    assert(line.subrange(2, 4)[0] == '-');
    assert(line.take(3) =~= "---"@);
}

/// Taking apart what was put together gives back the YAML text and every character of the body.
pub proof fn documents_are_read_as_written(yaml: Seq<char>, body: Seq<char>)
    requires
        !text::is_blank(yaml),
        text::trim_end(yaml, CharClass::Space) == yaml,
        forall|i: int|
            0 <= i < (yaml + "\n"@).len() && text::begins_line(yaml + "\n"@, i) ==> !is_delimiter(
                #[trigger] text::line_at(yaml + "\n"@, i),
            ),
    ensures
        parts(joined(yaml, body)) == Ok::<PartsView, Failure>(PartsView { yaml, body }),
{
    reveal_strlit("\n");
    reveal_strlit("---\n");
    reveal_strlit("\n---\n");
    let s = joined(yaml, body);
    let first = "---\n"@;
    let lines = yaml + "\n"@;
    let tail = if body.len() == 0 {
        Seq::empty()
    } else {
        "\n"@ + body
    };
    assert("\n---\n"@ =~= "\n"@ + first);
    assert(s =~= first + lines + (first + tail));
    assert(s =~= Seq::<char>::empty() + first + (lines + (first + tail)));
    assert(s[0] == '-');
    assert(unmarked(s) == s);
    lemma_dashes(Seq::empty(), lines + (first + tail));
    lemma_delimiter_skips(first, lines, first + tail, 0);
    assert(s =~= (first + lines) + first + tail);
    lemma_dashes(first + lines, tail);
    let end = (first.len() + lines.len()) as int;
    assert(delimiter_from(s, end) == Some(end));
    assert(s.subrange(4, end) =~= lines);
    text::lemma_trail_is(yaml, CharClass::Space);
    assert(yaml.len() > 0);
    assert(text::trail(yaml, CharClass::Space) == 0);
    assert(!text::is_space(yaml.last()));
    text::lemma_trail(lines, CharClass::LineEnd, 1);
    assert(text::trim_end(lines, CharClass::LineEnd) =~= yaml);
    let rest = s.skip(end + 4);
    assert(rest =~= tail);
    if body.len() == 0 {
        assert(body =~= Seq::<char>::empty());
        assert(body_of(rest) =~= body);
    } else {
        assert(rest[0] == '\n');
        if text::begins(rest, seq!['\r', '\n']) {
            assert(rest.subrange(0, 2)[0] == '\r');
        }
        assert(rest.subrange(0, 1) =~= seq!['\n']);
        assert(rest.skip(1) =~= body);
    }
}

} // verus!
