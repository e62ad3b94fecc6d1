//! What becomes of a comment that is written: it is kept and given back as it was given.

use crate::appending;
use crate::characters;
use crate::comments;
use crate::comments::{AuthorVariable, Comment};
use crate::document;
use crate::document::CommentView;
use crate::error::{Error, Failure};
use crate::outline;
use crate::outside;
use crate::record;
use crate::source;
use crate::text;
use crate::text::CharClass;
use vstd::prelude::*;

verus! {

/// Whether a text can be the name of an author: it is not empty, has at most 128 characters, no control
/// character, and nothing that would end a record.
pub open spec fn is_name(name: Seq<char>) -> bool {
    &&& 0 < name.len() <= 128
    &&& forall|i: int| 0 <= i < name.len() ==> !text::is_control(#[trigger] name[i])
    &&& forall|i: int|
        0 <= i && i + 3 <= name.len() ==> !(#[trigger] name[i] == '-' && name[i + 1] == '-' && name[i
            + 2] == '>')
}

/// Authors are accepted where they are names, and are refused elsewhere.
pub proof fn names_are_accepted(name: Seq<char>)
    ensures
        record::author_check(name) is Ok <==> is_name(name),
{
    reveal_strlit("-->");
    let end = "-->"@;
    assert(end =~= seq!['-', '-', '>']);
    if text::occurs(name, end) {
        let i = choose|i: int| text::occurs_at(name, end, i);
        assert(name.subrange(i, i + 3)[0] == name[i]);
        assert(name.subrange(i, i + 3)[1] == name[i + 1]);
        assert(name.subrange(i, i + 3)[2] == name[i + 2]);
    }
    assert forall|i: int| 0 <= i && i + 3 <= name.len() && (#[trigger] name[i]) == '-' && name[i + 1]
        == '-' && name[i + 2] == '>' implies text::occurs(name, end) by {
        assert(name.subrange(i, i + 3) =~= end);
        assert(text::occurs_at(name, end, i));
    }
}

/// An author is kept without the white space around the name.
pub proof fn authors_are_kept(author: Seq<char>)
    ensures
        record::author_of(author) matches Ok(name) ==> characters::strips_space(author, name)
            && is_name(name),
        forall|name: Seq<char>| #[trigger]
            characters::strips_space(author, name) && is_name(name) ==> record::author_of(author)
                == Ok::<Seq<char>, Failure>(name),
{
    let kept = text::trim(author);
    characters::trimming_strips(author);
    names_are_accepted(kept);
    assert forall|name: Seq<char>| #[trigger]
        characters::strips_space(author, name) && is_name(name) implies record::author_of(author)
        == Ok::<Seq<char>, Failure>(name) by {
        characters::strips_to_one(author, name, kept, |c: char| text::is_space(c));
    }
}

/// The author of a comment is the one that was named for it. Where none was, it is that of the
/// environment, and where that has none, that of Git.
pub proof fn the_named_author_counts(
    explicit: Option<Seq<char>>,
    variable: AuthorVariable,
    git: Option<Seq<char>>,
)
    ensures
        ({
            let given = match (explicit, variable) {
                (Some(author), _) => Some(author),
                (None, AuthorVariable::Value(author)) => Some(author@),
                (None, AuthorVariable::NotUnicode) => None,
                (None, AuthorVariable::Absent) => git,
            };
            let chosen = comments::author_from(explicit, variable, git);
            &&& chosen matches Ok(name) ==> (given matches Some(author) && characters::strips_space(
                author,
                name,
            ) && is_name(name))
            &&& given matches Some(author) ==> forall|name: Seq<char>| #[trigger]
                characters::strips_space(author, name) && is_name(name) ==> chosen == Ok::<
                    Seq<char>,
                    Failure,
                >(name)
        }),
{
    match (explicit, variable) {
        (Some(author), _) => authors_are_kept(author),
        (None, AuthorVariable::Value(author)) => authors_are_kept(author@),
        (None, AuthorVariable::NotUnicode) => {},
        (None, AuthorVariable::Absent) => {
            if let Some(author) = git {
                authors_are_kept(author);
            }
        },
    }
}

/// A comment that was appended holds the text that it was given, but for the carriage returns and line
/// feeds at the two ends: a text that neither begins nor ends with one is kept character for character.
/// It holds the author without the white space around the name.
pub proof fn comments_hold_the_given_text(
    s: Seq<char>,
    author: Seq<char>,
    text: Seq<char>,
    result: Result<(String, Comment), Error>,
)
    requires
        comments::is_appended(s, author, text, result),
        result is Ok,
    ensures
        ({
            let comment = result->Ok_0.1@;
            &&& comment.version == 1
            &&& characters::strips_lines(text, comment.body)
            &&& text.len() > 0 && !characters::is_line_end(text[0]) && !characters::is_line_end(
                text.last(),
            ) ==> comment.body == text
            &&& characters::strips_space(author, comment.author)
            &&& is_name(comment.author)
            &&& text::begins(comment.id, "CMT-"@)
            &&& outside::is_utc(comment.created_at, 24)
        }),
{
    let comment = result->Ok_0.1@;
    characters::trimming_strips(text);
    authors_are_kept(author);
    let name = record::author_of(author)->Ok_0;
    let body = text::trim_both(text, CharClass::LineEnd);
    assert(comments::appended_now(s, name, body, result));
    let (uuid, time) = choose|uuid: u128, time: Seq<char>| #[trigger]
        comments::appended_as(s, name, body, uuid, time, result);
    let id = record::COMMENT_ID_PREFIX@ + outside::hyphenated(uuid);
    assert(comment == comments::new_comment(name, body, id, time));
    assert(id.subrange(0, "CMT-"@.len() as int) =~= "CMT-"@);
    if text.len() > 0 && !characters::is_line_end(text[0]) && !characters::is_line_end(text.last()) {
        characters::bare_texts_are_kept(text, comment.body, |c: char| characters::is_line_end(c));
    }
}

/// A text with nothing but white space is refused as a comment, and so is an author without a name.
pub proof fn empty_comments_are_refused(
    s: Seq<char>,
    author: Seq<char>,
    text: Seq<char>,
    result: Result<(String, Comment), Error>,
)
    requires
        comments::is_appended(s, author, text, result),
        text::is_blank(text) || text::is_blank(author),
    ensures
        result is Err,
{
    characters::trimming_strips(text);
    characters::trimming_strips(author);
    authors_are_kept(author);
    if text::is_blank(text) {
        let body = text::trim_both(text, CharClass::LineEnd);
        let drop = |c: char| characters::is_line_end(c);
        let (from, to) = choose|from: int, to: int|
            characters::strips_to(text, body, drop, from, to);
        assert forall|i: int| 0 <= i < body.len() implies text::is_space(#[trigger] body[i]) by {
            assert(body[i] == text[from + i]);
        }
    } else {
        let name = text::trim(author);
        let drop = |c: char| text::is_space(c);
        let (from, to) = choose|from: int, to: int|
            characters::strips_to(author, name, drop, from, to);
        if from < to {
            assert(text::is_space(author[from]));
        }
        assert(name.len() == 0);
    }
}

/// A comment by a named author with a text is appended to every body whose comments are in order, where
/// its record can be written, no two sections share the title of the comments, and the body with it is
/// in order again.
pub proof fn comments_can_be_appended(s: Seq<char>, comment: CommentView, block: Seq<char>)
    requires
        is_name(comment.author),
        record::id_check(comment.id) is Ok,
        record::time_check(comment.created_at) is Ok,
        !text::is_blank(comment.body),
        document::document(s) is Ok,
        comments::rendered(comment) == Some(block),
        ({
            let found = document::document(s)->Ok_0;
            comments::extended(s, found, block) matches Ok(updated) && document::document(
                updated,
            ) is Ok
        }),
    ensures
        comments::appended(s, comment) is Ok,
        comments::appended(s, comment)->Ok_0.1 == comment,
{
    names_are_accepted(comment.author);
}

/// A body with a section of comments takes a further block, and so does one without, where at most one
/// section has the title of the comments.
pub proof fn blocks_find_a_place(s: Seq<char>, block: Seq<char>)
    requires
        document::document(s) is Ok,
        document::document(s)->Ok_0.registry is None ==> (document::structural_sections(
            s,
            Seq::empty(),
        ) matches Some(sections) && forall|i: int, j: int|
            0 <= i < j < sections.len() ==> !(characters::same_letters(
                (#[trigger] sections[i]).title,
                "Comments"@,
            ) && characters::same_letters((#[trigger] sections[j]).title, "Comments"@))),
    ensures
        comments::extended(s, document::document(s)->Ok_0, block) is Ok,
{
    if document::document(s)->Ok_0.registry is None {
        let sections = document::structural_sections(s, Seq::empty())->0;
        assert forall|i: int, j: int| 0 <= i < j < sections.len() implies !(outline::titled(
            #[trigger] sections[i],
            "Comments"@,
        ) && outline::titled(#[trigger] sections[j], "Comments"@)) by {
            characters::alike_is_same_letters(sections[i].title, "Comments"@);
            characters::alike_is_same_letters(sections[j].title, "Comments"@);
        }
        lemma_at_most_one(sections, "Comments"@, sections.len());
    }
}

proof fn lemma_at_most_one(sections: Seq<outline::RegionView>, title: Seq<char>, n: nat)
    requires
        n <= sections.len(),
        forall|i: int, j: int|
            0 <= i < j < sections.len() ==> !(outline::titled(#[trigger] sections[i], title)
                && outline::titled(#[trigger] sections[j], title)),
    ensures
        outline::count_titled(sections, title, n) <= 1,
        outline::count_titled(sections, title, n) == 1 ==> exists|i: int|
            0 <= i < n && outline::titled(#[trigger] sections[i], title),
    decreases n,
{
    if n > 0 {
        lemma_at_most_one(sections, title, (n - 1) as nat);
        if outline::titled(sections[n - 1], title) && outline::count_titled(
            sections,
            title,
            (n - 1) as nat,
        ) == 1 {
            let i = choose|i: int| 0 <= i < n - 1 && outline::titled(#[trigger] sections[i], title);
            assert(i < n - 1);
        }
    }
}

/// A comment that was appended is read back by its id: with the author, and with the given text but for
/// the line endings at its two ends, inner line feeds included. This holds where the YAML text of its
/// record is read as it was written, and the Markdown parser leads to the records that there were and to
/// the new one.
pub proof fn appended_text_is_read_back(
    s: Seq<char>,
    author: Seq<char>,
    text: Seq<char>,
    result: Result<(String, Comment), Error>,
    yaml: Seq<char>,
)
    requires
        source::fits(s),
        comments::is_appended(s, author, text, result),
        result is Ok,
        source::fits(result->Ok_0.0@),
        ({
            let comment = result->Ok_0.1@;
            &&& comments::rendered(comment) == Some(comments::block(comment, yaml))
            &&& comments::is_faithful(comment, yaml)
            &&& comments::is_writable(comment)
            &&& appending::starts_in(result->Ok_0.0@) == appending::starts_in(s).push(
                comments::new_place(s, document::document(s)->Ok_0) as usize,
            )
        }),
    ensures
        ({
            let (updated, comment) = result->Ok_0;
            let found = comments::comment_with(updated@, comment@.id);
            &&& found is Ok
            &&& characters::strips_lines(text, found->Ok_0.body)
            &&& characters::strips_space(author, found->Ok_0.author)
            &&& found->Ok_0.created_at == comment@.created_at
        }),
{
    let comment = result->Ok_0.1@;
    comments_hold_the_given_text(s, author, text, result);
    let name = record::author_of(author)->Ok_0;
    let body = text::trim_both(text, CharClass::LineEnd);
    let (uuid, time) = choose|uuid: u128, time: Seq<char>| #[trigger]
        comments::appended_as(s, name, body, uuid, time, result);
    let id = record::COMMENT_ID_PREFIX@ + outside::hyphenated(uuid);
    assert(comment == comments::new_comment(name, body, id, time));
    assert(comments::appended(s, comment)->Ok_0.0 == result->Ok_0.0@);
    appending::appended_comments_are_read_last(s, comment, yaml);
}

proof fn lemma_comment_index(found: Seq<CommentView>, id: Seq<char>, i: int)
    requires
        0 <= i,
    ensures
        match comments::comment_index(found, id, i) {
            Some(k) => i <= k < found.len() && text::alike(found[k].id, id) && forall|j: int|
                i <= j < k ==> !text::alike((#[trigger] found[j]).id, id),
            None => forall|j: int| i <= j < found.len() ==> !text::alike((#[trigger] found[j]).id, id),
        },
    decreases found.len() - i,
{
    if i < found.len() && !text::alike(found[i].id, id) {
        lemma_comment_index(found, id, i + 1);
    }
}

/// A comment is found by its id, whatever the case of its letters and the white space around it, and no
/// other one is given.
pub proof fn comments_are_found_by_id(s: Seq<char>, id: Seq<char>, wanted: Seq<char>, k: int)
    requires
        document::document(s) is Ok,
        characters::strips_space(id, wanted),
    ensures
        ({
            let all = document::document(s)->Ok_0.comments;
            let found = comments::comment_with(s, id);
            &&& found matches Ok(comment) ==> all.contains(comment) && characters::same_letters(
                comment.id,
                wanted,
            )
            &&& 0 <= k < all.len() && characters::same_letters(all[k].id, wanted) ==> found is Ok
        }),
{
    let all = document::document(s)->Ok_0.comments;
    characters::trimming_strips(id);
    characters::strips_to_one(id, wanted, text::trim(id), |c: char| text::is_space(c));
    lemma_comment_index(all, wanted, 0);
    if let Some(i) = comments::comment_index(all, wanted, 0) {
        characters::alike_is_same_letters(all[i].id, wanted);
        assert(all.contains(all[i]));
    }
    if 0 <= k < all.len() {
        characters::alike_is_same_letters(all[k].id, wanted);
    }
}

/// A body to which a comment was appended is the body with one text put in at one place, and that text
/// holds the text of the comment.
pub proof fn appended_bodies_only_grow(
    s: Seq<char>,
    author: Seq<char>,
    text: Seq<char>,
    result: Result<(String, Comment), Error>,
)
    requires
        source::fits(s),
        comments::is_appended(s, author, text, result),
        result is Ok,
    ensures
        exists|at: int, added: Seq<char>| #[trigger]
            comments::is_extension(s, at, added, result->Ok_0.0@) && text::occurs(
                added,
                result->Ok_0.1@.body,
            ),
{
    let comment = result->Ok_0.1@;
    let updated = result->Ok_0.0@;
    let name = record::author_of(author)->Ok_0;
    let body = text::trim_both(text, CharClass::LineEnd);
    let (uuid, time) = choose|uuid: u128, time: Seq<char>| #[trigger]
        comments::appended_as(s, name, body, uuid, time, result);
    let id = record::COMMENT_ID_PREFIX@ + outside::hyphenated(uuid);
    assert(comment == comments::new_comment(name, body, id, time));
    assert(comments::appended(s, comment)->Ok_0.0 == updated);
    comments::appending_only_adds(s, comment);
    let block = comments::rendered(comment)->0;
    let (at, added) = choose|at: int, added: Seq<char>| #[trigger]
        comments::is_extension(s, at, added, comments::appended(s, comment)->Ok_0.0)
            && text::occurs(added, block);
    lemma_block_holds(comment, added, block);
    assert(comments::is_extension(s, at, added, updated));
}

proof fn lemma_block_holds(comment: CommentView, added: Seq<char>, block: Seq<char>)
    requires
        comments::rendered(comment) == Some(block),
        text::occurs(added, block),
    ensures
        text::occurs(added, comment.body),
{
    let version = outside::yaml_number_line("version"@, comment.version)->0;
    let id = outside::yaml_string_line("id"@, comment.id)->0;
    let author = outside::yaml_string_line("author"@, comment.author)->0;
    let created_at = outside::yaml_string_line("created_at"@, comment.created_at)->0;
    let yaml = text::trim_end(version + id + author + created_at, CharClass::LineEnd);
    assert(block == comments::block(comment, yaml));
    let head = record::COMMENT_START@ + "\n"@ + yaml + "\n-->\n"@ + record::attribution(
        comment.author,
        comment.created_at,
    ) + "\n\n"@;
    let tail = "\n\n"@ + record::end_marker(comment.id);
    assert(block =~= head + comment.body + tail);
    let i = choose|i: int| text::occurs_at(added, block, i);
    let n = head.len() as int;
    let m = comment.body.len() as int;
    assert(block.subrange(n, n + m) =~= comment.body);
    assert(added.subrange(i + n, i + n + m) =~= added.subrange(i, i + block.len()).subrange(
        n,
        n + m,
    ));
    assert(text::occurs_at(added, comment.body, i + n));
}

} // verus!
