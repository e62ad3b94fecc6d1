//! The records that comments and cards are kept in, said of characters.

use crate::boards;
use crate::characters;
use crate::commenting;
use crate::document;
use crate::frontmatter;
use crate::outline::Span;
use crate::outside;
use crate::record;
use crate::record::MetaView;
use crate::text;
use crate::text::CharClass;
use vstd::prelude::*;

verus! {

/// Whether a text is the id of a comment: the prefix and a UUID of version seven as it is written.
pub open spec fn is_id(id: Seq<char>) -> bool {
    exists|uuid: u128|
        id == "CMT-"@ + #[trigger] outside::hyphenated(uuid) && outside::uuid_value(id.skip(4))
            == Some(uuid) && outside::version_field(uuid) == 7
}

/// Whether metadata is that of a comment: of the first version, with an id, a name as its author
/// without white space around it, and a time in UTC.
pub open spec fn is_metadata(meta: MetaView) -> bool {
    &&& meta.version == 1
    &&& is_id(meta.id)
    &&& commenting::is_name(meta.author)
    &&& !text::is_space(meta.author[0])
    &&& !text::is_space(meta.author.last())
    &&& outside::rfc3339_offset(meta.created_at) == Some(0i32)
}

proof fn lemma_id(id: Seq<char>)
    ensures
        record::id_check(id) is Ok <==> is_id(id),
{
    reveal_strlit("CMT-");
    let prefix = record::COMMENT_ID_PREFIX@;
    assert(prefix == "CMT-"@);
    assert(prefix.len() == 4);
    if is_id(id) {
        let uuid = choose|uuid: u128|
            id == "CMT-"@ + #[trigger] outside::hyphenated(uuid) && outside::uuid_value(id.skip(4))
                == Some(uuid) && outside::version_field(uuid) == 7;
        assert(id.subrange(0, prefix.len() as int) =~= prefix);
        assert(text::begins(id, prefix));
    }
    if record::id_check(id) is Ok {
        let uuid = outside::uuid_value(id.skip(4))->0;
        assert(id == "CMT-"@ + outside::hyphenated(uuid));
    }
}

proof fn lemma_bare(name: Seq<char>)
    requires
        name.len() > 0,
    ensures
        text::trim(name) == name <==> !text::is_space(name[0]) && !text::is_space(name.last()),
{
    characters::trimming_strips(name);
    let drop = |c: char| text::is_space(c);
    if !text::is_space(name[0]) && !text::is_space(name.last()) {
        characters::bare_texts_are_kept(name, text::trim(name), drop);
    }
    if text::trim(name) == name {
        let (from, to) = choose|from: int, to: int|
            characters::strips_to(name, text::trim(name), drop, from, to);
        assert(from == 0 && to == name.len());
        assert(!drop(name[0]) && !drop(name[name.len() - 1]));
    }
}

proof fn lemma_author(name: Seq<char>)
    ensures
        text::trim(name) == name && record::author_check(name) is Ok <==> commenting::is_name(name)
            && !text::is_space(name[0]) && !text::is_space(name.last()),
{
    commenting::names_are_accepted(name);
    if name.len() > 0 {
        lemma_bare(name);
    }
}

/// The metadata of a comment is accepted just where it is that of a comment.
pub proof fn comment_metadata_is_accepted(meta: MetaView)
    ensures
        record::meta_check(meta) is Ok <==> is_metadata(meta),
{
    lemma_id(meta.id);
    lemma_author(meta.author);
}

/// Whether a character has a meaning in Markdown.
pub open spec fn is_sign(c: char) -> bool {
    seq![
        '\\', '`', '*', '_', '{', '}', '[', ']', '<', '>', '(', ')', '#', '+', '-', '.', '!', '|',
    ].contains(c)
}

/// Where the characters of a text are found in the escaped text.
pub open spec fn escaped_at(s: Seq<char>, i: int) -> int
    decreases i + 1,
{
    if i < 0 {
        -1
    } else {
        escaped_at(s, i - 1) + if is_sign(s[i]) {
            2int
        } else {
            1
        }
    }
}

proof fn lemma_sign(c: char)
    ensures
        record::is_marked(c) == is_sign(c),
{
    let signs = seq![
        '\\', '`', '*', '_', '{', '}', '[', ']', '<', '>', '(', ')', '#', '+', '-', '.', '!', '|',
    ];
    assert(signs[0] == '\\' && signs[1] == '`' && signs[2] == '*' && signs[3] == '_');
    assert(signs[4] == '{' && signs[5] == '}' && signs[6] == '[' && signs[7] == ']');
    assert(signs[8] == '<' && signs[9] == '>' && signs[10] == '(' && signs[11] == ')');
    assert(signs[12] == '#' && signs[13] == '+' && signs[14] == '-' && signs[15] == '.');
    assert(signs[16] == '!' && signs[17] == '|');
}

proof fn lemma_escaped(s: Seq<char>, n: nat)
    requires
        n <= s.len(),
    ensures
        ({
            let t = record::escaped(s, n);
            &&& t.len() == escaped_at(s, n - 1) + 1
            &&& forall|i: int|
                0 <= i < n ==> 0 <= #[trigger] escaped_at(s, i) < t.len() && t[escaped_at(s, i)]
                    == s[i] && (is_sign(s[i]) ==> escaped_at(s, i) > 0 && t[escaped_at(s, i) - 1]
                    == '\\')
        }),
    decreases n,
{
    if n > 0 {
        lemma_escaped(s, (n - 1) as nat);
        lemma_sign(s[n - 1]);
        let before = record::escaped(s, (n - 1) as nat);
        let t = record::escaped(s, n);
        assert forall|i: int| 0 <= i < n implies 0 <= #[trigger] escaped_at(s, i) < t.len()
            && t[escaped_at(s, i)] == s[i] && (is_sign(s[i]) ==> escaped_at(s, i) > 0 && t[
        escaped_at(s, i) - 1] == '\\') by {
            if i < n - 1 {
                assert(0 <= escaped_at(s, i) < before.len());
                assert(t[escaped_at(s, i)] == before[escaped_at(s, i)]);
            }
        }
    }
}

/// An escaped text holds every character of the text in its order, with one backslash before each that
/// has a meaning in Markdown, and holds nothing else.
pub proof fn escaped_texts_hold_the_text(s: Seq<char>)
    ensures
        ({
            let t = record::escaped(s, s.len());
            &&& t.len() == escaped_at(s, s.len() - 1) + 1
            &&& forall|i: int|
                0 <= i < s.len() ==> 0 <= #[trigger] escaped_at(s, i) < t.len() && t[escaped_at(
                    s,
                    i,
                )] == s[i] && (is_sign(s[i]) ==> escaped_at(s, i) > 0 && t[escaped_at(s, i) - 1]
                    == '\\')
        }),
{
    lemma_escaped(s, s.len());
}

/// What HTML at the beginning of a line means to the comments: the marker of their section is one, the
/// first line of a comment is one, all else that speaks of them is refused, and what does not speak of
/// them means nothing. Within a line it means nothing, but is refused where only blanks stand before it
/// and it speaks of comments.
pub proof fn markers_are_told_apart(s: Seq<char>, span: Span)
    ensures
        ({
            let piece = document::source_of(s, span);
            let told = document::meaning(s, span);
            let names = text::occurs(piece, "kbmd:comment"@);
            let first = text::line_start(s, span.start as int) == span.start;
            &&& told is Registry <==> first && piece == "<!-- kbmd:comments:v1 -->"@
            &&& told is Start <==> first && piece == "<!-- kbmd:comment:v1"@
            &&& told is Inert <==> !names || (!first && !document::only_blanks(
                document::prefix_of(s, span),
            ))
        }),
{
    reveal_strlit("<!-- kbmd:comments:v1 -->");
    reveal_strlit("<!-- kbmd:comment:v1");
    reveal_strlit("<!-- kbmd:comment:end ");
    reveal_strlit("kbmd:comment");
    let piece = document::source_of(s, span);
    let name = "kbmd:comment"@;
    assert(record::COMMENTS_MARKER@ == "<!-- kbmd:comments:v1 -->"@);
    assert(record::COMMENT_START@ == "<!-- kbmd:comment:v1"@);
    assert(record::COMMENT_END_PREFIX@ == "<!-- kbmd:comment:end "@);
    assert(record::COMMENTS_MARKER@.len() != record::COMMENT_START@.len());
    if piece == record::COMMENTS_MARKER@ || text::begins(piece, record::COMMENT_START@)
        || text::begins(piece, record::COMMENT_END_PREFIX@) {
        lemma_named(piece, record::COMMENTS_MARKER@, name);
        lemma_named(piece, record::COMMENT_START@, name);
        lemma_named(piece, record::COMMENT_END_PREFIX@, name);
        if piece == record::COMMENTS_MARKER@ {
            assert(piece.subrange(0, piece.len() as int) =~= piece);
            assert(text::begins(piece, record::COMMENTS_MARKER@));
        }
    }
    if piece == record::COMMENT_START@ {
        assert(piece.subrange(0, piece.len() as int) =~= piece);
        assert(text::begins(piece, record::COMMENT_START@));
    }
}

proof fn lemma_named(piece: Seq<char>, marker: Seq<char>, name: Seq<char>)
    requires
        marker == "<!-- kbmd:comments:v1 -->"@ || marker == "<!-- kbmd:comment:v1"@ || marker
            == "<!-- kbmd:comment:end "@,
        name == "kbmd:comment"@,
    ensures
        text::begins(piece, marker) ==> text::occurs(piece, name),
{
    reveal_strlit("<!-- kbmd:comments:v1 -->");
    reveal_strlit("<!-- kbmd:comment:v1");
    reveal_strlit("<!-- kbmd:comment:end ");
    reveal_strlit("kbmd:comment");
    assert(marker.subrange(5, 17) =~= name);
    if text::begins(piece, marker) {
        assert(piece.subrange(5, 17) =~= piece.subrange(0, marker.len() as int).subrange(5, 17));
        assert(text::occurs_at(piece, name, 5));
    }
}

/// What is read of a file stands in it: its body is the end of the file, character for character, and
/// the YAML text, which is more than white space and does not end a line at its end, stands before it.
pub proof fn files_hold_what_is_read(input: Seq<char>)
    requires
        frontmatter::parts(input) is Ok,
    ensures
        ({
            let read = frontmatter::parts(input)->Ok_0;
            &&& text::occurs_at(input, read.body, input.len() - read.body.len())
            &&& boards::is_written(read.yaml)
            &&& !characters::is_line_end(read.yaml.last())
            &&& exists|i: int|
                #[trigger] text::occurs_at(input, read.yaml, i) && i + read.yaml.len()
                    <= input.len() - read.body.len()
        }),
{
    let s = frontmatter::unmarked(input);
    let skipped = input.len() - s.len();
    let start = text::line_end(s, 0);
    let end = frontmatter::delimiter_from(s, start)->0;
    let read = frontmatter::parts(input)->Ok_0;
    text::lemma_line_end(s, 0);
    lemma_delimiter(s, start);
    text::lemma_line_end(s, end);
    let rest = s.skip(text::line_end(s, end));
    let lines = s.subrange(start, end);
    assert(s =~= input.skip(skipped));
    assert(text::begins(rest, seq!['\r', '\n']) ==> rest.len() >= 2);
    assert(text::begins(rest, seq!['\n']) ==> rest.len() >= 1);
    let from = input.len() - read.body.len();
    assert(input.subrange(from, from + read.body.len()) =~= read.body);
    text::lemma_trail_is(lines, CharClass::LineEnd);
    let n = read.yaml.len();
    assert(n > 0) by {
        if n == 0 {
            assert(text::is_blank(read.yaml));
        }
    }
    assert(read.yaml =~= lines.take(n as int));
    assert(input.subrange(skipped + start, skipped + start + n) =~= read.yaml);
    assert(text::occurs_at(input, read.yaml, skipped + start));
}

proof fn lemma_delimiter(s: Seq<char>, at: int)
    requires
        0 <= at <= s.len(),
    ensures
        frontmatter::delimiter_from(s, at) matches Some(end) ==> at <= end < s.len(),
    decreases s.len() - at,
{
    text::lemma_line_end(s, at);
    if at < s.len() && !frontmatter::is_delimiter(text::line_at(s, at)) {
        lemma_delimiter(s, text::line_end(s, at));
    }
}

} // verus!
