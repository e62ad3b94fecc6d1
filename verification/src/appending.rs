//! What is read of the comments of a body after one was appended.

use crate::comments;
use crate::document;
use crate::document::{CommentView, DraftView, Meaning, TokenView};
use crate::error::Failure;
use crate::outline::Span;
use crate::outside;
use crate::record;
use crate::record::MetaView;
use crate::source;
use crate::text;
use crate::text::CharClass;
use vstd::prelude::*;

verus! {

/// Where the start records among control records begin.
pub open spec fn comment_starts(tokens: Seq<TokenView>) -> Seq<usize>
    decreases tokens.len(),
{
    if tokens.len() == 0 {
        Seq::empty()
    } else {
        let before = comment_starts(tokens.drop_last());
        match tokens.last() {
            TokenView::Start(_, span) => before.push(span.start),
            _ => before,
        }
    }
}

/// Where the start records that are met in a body begin. The Markdown parser leads from each record to
/// the next one.
pub open spec fn starts_in(s: Seq<char>) -> Seq<usize> {
    comment_starts(document::tokens(s)->Ok_0)
}

/// The comment whose start record begins at an index.
pub open spec fn comment_at(s: Seq<char>, at: int) -> CommentView {
    let (meta, opening, closing) = document::block_at(s, at)->Ok_0;
    document::comment_in(s.subrange(opening.end as int, closing.start as int), meta)->Ok_0
}

/// Whether each start record is followed by the end marker of its block.
spec fn in_blocks(s: Seq<char>, tokens: Seq<TokenView>) -> bool {
    forall|a: int|
        0 <= a < tokens.len() && (#[trigger] tokens[a]) is Start ==> is_block_token(s, tokens, a)
}

/// Whether a start record is followed by the end marker of its block.
spec fn is_block_token(s: Seq<char>, tokens: Seq<TokenView>, a: int) -> bool {
    &&& a + 1 < tokens.len()
    &&& tokens[a] matches TokenView::Start(meta, opening) && tokens[a + 1] matches TokenView::End(
        id,
        closing,
    ) && id == meta.id && document::block_at(s, opening.start as int) == Ok::<
        (MetaView, Span, Span),
        Failure,
    >((meta, opening, closing))
}

proof fn lemma_tokens_blocks(s: Seq<char>, cursor: int, read: Seq<TokenView>)
    requires
        source::fits(s),
        0 <= cursor <= s.len(),
        in_blocks(s, read),
    ensures
        document::tokens_from(s, cursor, read) matches Ok(all) ==> in_blocks(s, all),
    decreases s.len() - cursor,
{
    document::lemma_fits_len(s);
    if cursor < s.len() {
        if let Some(spans) = document::html_from(s, cursor) {
            if let Some(i) = document::first_control(s, spans, 0) {
                document::lemma_first_control(s, spans, 0);
                document::lemma_registry_progress(s, cursor, spans, i);
                let span = spans[i];
                let at = span.start as int;
                document::lemma_block_progress(s, at);
                if document::meaning(s, span) == Meaning::Registry {
                    let next = read.push(TokenView::Registry(span));
                    assert forall|a: int|
                        0 <= a < next.len() && (#[trigger] next[a]) is Start implies is_block_token(
                        s,
                        next,
                        a,
                    ) by {
                        assert(read[a] is Start);
                    }
                    lemma_tokens_blocks(s, span.end as int, next);
                } else if document::meaning(s, span) == Meaning::Start {
                    if let Ok((meta, opening, closing)) = document::block_at(s, at) {
                        document::lemma_record_places(s, at, at);
                        let next = read.push(TokenView::Start(meta, opening)).push(
                            TokenView::End(meta.id, closing),
                        );
                        assert forall|a: int|
                            0 <= a < next.len() && (
                            #[trigger] next[a]) is Start implies is_block_token(s, next, a) by {
                            if a < read.len() {
                                assert(read[a] is Start);
                                assert(is_block_token(s, read, a));
                            }
                        }
                        lemma_tokens_blocks(s, closing.end as int, next);
                    }
                }
            }
        }
    }
}

/// Whether the comments that are read are those at the start records.
spec fn read_at(s: Seq<char>, draft: DraftView, tokens: Seq<TokenView>, n: int) -> bool {
    let starts = comment_starts(tokens.take(n));
    &&& draft.ranges.len() == draft.comments.len()
    &&& starts.len() == draft.comments.len() + if draft.open is Some {
        1nat
    } else {
        0nat
    }
    &&& draft.open matches Some((meta, span)) ==> n > 0 && tokens[n - 1] == TokenView::Start(
        meta,
        span,
    ) && starts.last() == span.start
    &&& forall|k: int|
        0 <= k < draft.comments.len() ==> is_read_at(
            s,
            draft.ranges[k],
            #[trigger] draft.comments[k],
            starts[k],
        )
}

/// Whether a comment is the one whose start record begins at an index.
spec fn is_read_at(s: Seq<char>, range: Span, comment: CommentView, start: usize) -> bool {
    &&& document::block_at(s, start as int) matches Ok((_, _, closing)) && closing.end == range.end
    &&& comment == comment_at(s, start as int)
}

proof fn lemma_gathered_at(s: Seq<char>, tokens: Seq<TokenView>, n: int, draft: DraftView)
    requires
        0 <= n <= tokens.len(),
        in_blocks(s, tokens),
        read_at(s, draft, tokens, n),
    ensures
        document::gathered(s, tokens, n, draft) matches Ok(last) ==> read_at(
            s,
            last,
            tokens,
            tokens.len() as int,
        ),
    decreases tokens.len() - n,
{
    if n < tokens.len() {
        if let Ok(next) = document::step(s, draft, tokens[n]) {
            let starts = comment_starts(tokens.take(n));
            let now = comment_starts(tokens.take(n + 1));
            assert(tokens.take(n + 1).drop_last() =~= tokens.take(n));
            assert(tokens.take(n + 1).last() == tokens[n]);
            if let TokenView::End(id, span) = tokens[n] {
                let (meta, opening) = draft.open->0;
                assert(tokens[n - 1] is Start);
                assert(is_block_token(s, tokens, n - 1));
            }
            assert forall|k: int| 0 <= k < next.comments.len() implies is_read_at(
                s,
                next.ranges[k],
                #[trigger] next.comments[k],
                now[k],
            ) by {
                if k < draft.comments.len() {
                    assert(next.comments[k] == draft.comments[k]);
                    assert(now[k] == starts[k]);
                }
            }
            lemma_gathered_at(s, tokens, n + 1, next);
        }
    }
}

/// The comments of a body are those at the start records that are met in it, in order.
pub proof fn comments_are_at_their_starts(s: Seq<char>)
    requires
        source::fits(s),
        document::document(s) is Ok,
    ensures
        ({
            let read = document::document(s)->Ok_0;
            let starts = starts_in(s);
            &&& starts.len() == read.comments.len()
            &&& read.ranges.len() == read.comments.len()
            &&& forall|k: int|
                0 <= k < starts.len() ==> read.comments[k] == comment_at(
                    s,
                    #[trigger] starts[k] as int,
                ) && (document::block_at(s, starts[k] as int) matches Ok((_, _, closing))
                    && closing.end == read.ranges[k].end)
        }),
{
    let list = document::tokens(s)->Ok_0;
    let read = document::document(s)->Ok_0;
    let starts = starts_in(s);
    lemma_tokens_blocks(s, 0, Seq::empty());
    assert(list.take(0) =~= Seq::<TokenView>::empty());
    assert(read_at(s, document::blank_draft(), list, 0));
    lemma_gathered_at(s, list, 0, document::blank_draft());
    let draft = document::gathered(s, list, 0, document::blank_draft())->Ok_0;
    assert(list.take(list.len() as int) =~= list);
    assert(draft.comments == read.comments && draft.ranges == read.ranges);
    assert(draft.open is None);
    assert forall|k: int| 0 <= k < starts.len() implies read.comments[k] == comment_at(
        s,
        #[trigger] starts[k] as int,
    ) && (document::block_at(s, starts[k] as int) matches Ok((_, _, closing)) && closing.end
        == read.ranges[k].end) by {
        assert(is_read_at(s, draft.ranges[k], draft.comments[k], starts[k]));
    }
}

/// A closed line of what two texts have in common at their beginnings is the same in both.
proof fn lemma_same_line(s: Seq<char>, changed: Seq<char>, to: int, at: int)
    requires
        0 <= at < to <= s.len(),
        to <= changed.len(),
        changed.take(to) == s.take(to),
        text::line_end(s, at) <= to,
        s[text::line_end(s, at) - 1] == '\n',
    ensures
        text::line_end(changed, at) == text::line_end(s, at),
        text::line_at(changed, at) == text::line_at(s, at),
{
    let end = text::line_end(s, at);
    text::lemma_line_end(s, at);
    assert forall|i: int| 0 <= i < to implies s[i] == changed[i] by {
        assert(s.take(to)[i] == s[i]);
        assert(changed.take(to)[i] == changed[i]);
    }
    text::lemma_next_index(changed, '\n', at, end - 1);
    assert(changed.subrange(at, end) =~= s.subrange(at, end));
}

proof fn lemma_same_record(s: Seq<char>, changed: Seq<char>, to: int, start: int, at: int)
    requires
        0 <= start <= at <= s.len() <= usize::MAX,
        to <= s.len(),
        to <= changed.len(),
        changed.take(to) == s.take(to),
        record::record_from(s, start, at) matches Ok(span) && span.end <= to && s[span.end - 1]
            == '\n',
    ensures
        record::record_from(changed, start, at) == record::record_from(s, start, at),
    decreases s.len() - at,
{
    if at < s.len() {
        let end = text::line_end(s, at);
        text::lemma_line_end(s, at);
        let span = record::record_from(s, start, at)->Ok_0;
        document::lemma_record_places(s, start, at);
        document::lemma_record_places(s, start, end);
        if text::line_at(s, at) == "-->"@ && at != start {
            lemma_same_line(s, changed, to, at);
        } else {
            lemma_same_line(s, changed, to, at);
            lemma_same_record(s, changed, to, start, end);
        }
    }
}

proof fn lemma_same_end(s: Seq<char>, changed: Seq<char>, to: int, at: int, id: Seq<char>)
    requires
        0 <= at <= s.len() <= usize::MAX,
        to <= s.len(),
        to <= changed.len() <= usize::MAX,
        changed.take(to) == s.take(to),
        record::end_from(s, at, id) matches Ok(span) && span.end <= to,
        to > 0 && s[to - 1] != '\n' && changed.len() > to ==> changed[to] == '\n',
    ensures
        record::end_from(changed, at, id) matches Ok(span) && span.start == record::end_from(
            s,
            at,
            id,
        )->Ok_0.start,
    decreases s.len() - at,
{
    if at < s.len() {
        let end = text::line_end(s, at);
        text::lemma_line_end(s, at);
        let span = record::end_from(s, at, id)->Ok_0;
        if text::line_at(s, at) == record::end_marker(id) {
            if s[end - 1] == '\n' {
                lemma_same_line(s, changed, to, at);
            } else {
                assert(end == s.len() && to == s.len());
                assert(s.take(to) =~= s);
                lemma_marker_end(s, at, id);
                lemma_open_line(s, changed, at);
            }
        } else {
            document::lemma_end_bounds(s, end, id);
            lemma_same_line(s, changed, to, at);
            lemma_same_end(s, changed, to, end, id);
        }
    }
}

/// The last line of a text without a line feed is the same where one follows.
proof fn lemma_open_line(s: Seq<char>, changed: Seq<char>, at: int)
    requires
        0 <= at < s.len() <= changed.len(),
        changed.take(s.len() as int) == s,
        text::line_end(s, at) == s.len(),
        s.last() != '\n',
        s.last() != '\r',
        changed.len() > s.len() ==> changed[s.len() as int] == '\n',
    ensures
        text::line_at(changed, at) == text::line_at(s, at),
        at < changed.len(),
{
    let to = s.len() as int;
    text::lemma_line_end(s, at);
    assert forall|i: int| 0 <= i < to implies s[i] == changed[i] by {
        assert(changed.take(to)[i] == changed[i]);
    }
    assert forall|i: int| at <= i < to implies #[trigger] changed[i] != '\n' by {
        assert(s[i] == changed[i]);
        if i == to - 1 {
            assert(s[i] == s.last());
        }
    }
    text::lemma_next_index(changed, '\n', at, to);
    let line = s.subrange(at, to);
    let other = changed.subrange(at, text::line_end(changed, at));
    crate::properties::lemma_finishes_one(line);
    crate::properties::lemma_finishes_two(line);
    crate::properties::lemma_finishes_one(other);
    crate::properties::lemma_finishes_two(other);
    assert(line.last() == s.last());
    if changed.len() > to {
        assert(other =~= line.push('\n'));
        assert(other.take(other.len() - 1) =~= line);
    } else {
        assert(other =~= line);
    }
}

/// A block in what two texts have in common at their beginnings gives one comment in both.
proof fn lemma_same_block(s: Seq<char>, changed: Seq<char>, to: int, start: int)
    requires
        0 <= start < s.len() <= usize::MAX,
        to <= s.len(),
        to <= changed.len() <= usize::MAX,
        changed.take(to) == s.take(to),
        document::block_at(s, start) matches Ok((_, _, closing)) && closing.end <= to,
        to > 0 && s[to - 1] != '\n' && changed.len() > to ==> changed[to] == '\n',
    ensures
        document::block_at(changed, start) is Ok,
        comment_at(changed, start) == comment_at(s, start),
{
    let (meta, opening, closing) = document::block_at(s, start)->Ok_0;
    document::lemma_record_places(s, start, start);
    document::lemma_end_bounds(s, opening.end as int, meta.id);
    lemma_end_at(s, opening.end as int, meta.id);
    text::lemma_line_start(s, opening.end as int);
    assert(s[opening.end - 1] == '\n');
    lemma_same_record(s, changed, to, start, start);
    assert forall|i: int| 0 <= i < to implies s[i] == changed[i] by {
        assert(s.take(to)[i] == s[i]);
        assert(changed.take(to)[i] == changed[i]);
    }
    assert(changed.subrange(opening.start as int, opening.end as int) =~= s.subrange(
        opening.start as int,
        opening.end as int,
    ));
    lemma_same_end(s, changed, to, opening.end as int, meta.id);
    assert(changed.subrange(opening.end as int, closing.start as int) =~= s.subrange(
        opening.end as int,
        closing.start as int,
    ));
}

/// An end marker begins where it is looked for, or behind.
proof fn lemma_end_at(s: Seq<char>, at: int, id: Seq<char>)
    requires
        0 <= at <= s.len() <= usize::MAX,
    ensures
        record::end_from(s, at, id) matches Ok(span) ==> at <= span.start < span.end <= s.len(),
    decreases s.len() - at,
{
    if at < s.len() {
        text::lemma_line_end(s, at);
        lemma_end_at(s, text::line_end(s, at), id);
    }
}

/// A line that is an end marker without a line ending ends with neither part of one.
proof fn lemma_marker_end(s: Seq<char>, at: int, id: Seq<char>)
    requires
        0 <= at < s.len(),
        text::line_end(s, at) == s.len(),
        s.last() != '\n',
        text::line_at(s, at) == record::end_marker(id),
    ensures
        s.last() != '\r',
{
    let line = s.subrange(at, s.len() as int);
    crate::properties::lemma_finishes_one(line);
    crate::properties::lemma_finishes_two(line);
    assert(line.last() == s.last());
    reveal_strlit(" -->");
    assert(record::end_marker(id).last() == '>');
}

/// An id that is as demanded has no white space around it.
proof fn lemma_id_trimmed(id: Seq<char>)
    requires
        record::id_check(id) is Ok,
    ensures
        text::trim(id) == id,
{
    let uuid = outside::uuid_value(id.skip(record::COMMENT_ID_PREFIX@.len() as int))->0;
    reveal_strlit("CMT-");
    assert(record::COMMENT_ID_PREFIX@ == "CMT-"@);
    let digits = outside::hex(uuid as nat, 32);
    lemma_hex(uuid as nat, 32);
    let tail = digits.subrange(20, 32);
    assert(id[0] == 'C');
    assert(outside::hyphenated(uuid).last() == tail.last());
    assert(id.last() == digits.last());
    text::lemma_lead(id, CharClass::Space, 0);
    assert(text::trim_start(id, CharClass::Space) =~= id);
    text::lemma_trail(id, CharClass::Space, 0);
    assert(text::trim_end(id, CharClass::Space) =~= id);
}

proof fn lemma_hex(n: nat, count: nat)
    ensures
        outside::hex(n, count).len() == count,
        count > 0 ==> !text::is_space(outside::hex(n, count).last()),
    decreases count,
{
    if count > 0 {
        lemma_hex(n / 16, (count - 1) as nat);
        let d = n % 16;
        assert(0 <= d < 16);
        if d < 10 {
            assert(outside::hex_digit(d) as u32 == '0' as u32 + d);
        } else {
            assert(outside::hex_digit(d) as u32 == 'a' as u32 + (d - 10));
        }
    }
}

/// A comment with an id that no other one has is found.
proof fn lemma_found(comments: Seq<CommentView>, id: Seq<char>, i: int, at: int)
    requires
        0 <= i <= at < comments.len(),
        text::alike(comments[at].id, id),
        forall|k: int| 0 <= k < at ==> !text::alike((#[trigger] comments[k]).id, id),
    ensures
        comments::comment_index(comments, id, i) == Some(at),
    decreases at - i,
{
    if i < at {
        lemma_found(comments, id, i + 1, at);
    }
}

/// A comment that was appended is read last, behind the comments that the body had, and is found by its
/// id, which none of those has. This holds where, led by the Markdown parser, the start records are met
/// at the places where they were, and that of the new block at its place.
pub proof fn appended_comments_are_read_last(s: Seq<char>, comment: CommentView, yaml: Seq<char>)
    requires
        source::fits(s),
        comments::appended(s, comment) is Ok,
        source::fits(comments::appended(s, comment)->Ok_0.0),
        comments::rendered(comment) == Some(comments::block(comment, yaml)),
        comments::is_faithful(comment, yaml),
        comments::is_writable(comment),
        starts_in(comments::appended(s, comment)->Ok_0.0) == starts_in(s).push(
            comments::new_place(s, document::document(s)->Ok_0) as usize,
        ),
    ensures
        ({
            let updated = comments::appended(s, comment)->Ok_0.0;
            let old_comments = document::document(s)->Ok_0.comments;
            &&& document::document(updated) matches Ok(document) && document.comments
                == old_comments.push(comment)
            &&& comments::comment_with(updated, comment.id) == Ok::<CommentView, Failure>(comment)
            &&& forall|k: int|
                0 <= k < old_comments.len() ==> !text::alike(
                    (#[trigger] old_comments[k]).id,
                    comment.id,
                )
        }),
{
    let updated = comments::appended(s, comment)->Ok_0.0;
    let found = document::document(s)->Ok_0.comments;
    let at = comments::new_place(s, document::document(s)->Ok_0);
    document::lemma_fits_len(updated);
    lemma_new_block(s, comment, yaml);
    lemma_block_read(updated, comment, yaml, at);
    lemma_list(s, comment, at);
    lemma_ids(updated, found, comment);
}

/// The block of an appended comment stands at its place.
proof fn lemma_new_block(s: Seq<char>, comment: CommentView, yaml: Seq<char>)
    requires
        source::fits(s),
        comments::appended(s, comment) is Ok,
        comments::rendered(comment) == Some(comments::block(comment, yaml)),
    ensures
        ({
            let updated = comments::appended(s, comment)->Ok_0.0;
            let block = comments::block(comment, yaml);
            let at = comments::new_place(s, document::document(s)->Ok_0);
            &&& 0 <= at <= updated.len() - block.len()
            &&& text::occurs_at(updated, block, at)
            &&& comments::ends_line(updated.skip(at + block.len()))
        }),
{
    let found = document::document(s)->Ok_0;
    let updated = comments::appended(s, comment)->Ok_0.0;
    let block = comments::block(comment, yaml);
    assert(comments::extended(s, found, block) == Ok::<Seq<char>, Failure>(updated));
    let (to, inner) = comments::lemma_extended(s, found, block);
    let (before, after) = comments::lemma_inserted_parts(s, to, inner, block);
    assert(updated.skip((before.len() + block.len()) as int) =~= after);
}

/// The last comment of a body is found by its id.
proof fn lemma_ids(updated: Seq<char>, found: Seq<CommentView>, comment: CommentView)
    requires
        document::document(updated) matches Ok(document) && document.comments == found.push(
            comment,
        ),
    ensures
        comments::comment_with(updated, comment.id) == Ok::<CommentView, Failure>(comment),
        forall|k: int|
            0 <= k < found.len() ==> !text::alike((#[trigger] found[k]).id, comment.id),
{
    let n = found.len() as int;
    let again = document::document(updated)->Ok_0.comments;
    assert(again[n] == comment);
    document::comments_are_sound(updated, n);
    lemma_id_trimmed(comment.id);
    assert forall|k: int| 0 <= k < n implies !text::alike(
        (#[trigger] found[k]).id,
        comment.id,
    ) by {
        document::comment_ids_are_distinct(updated, k, n);
        assert(again[k] == found[k]);
    }
    assert forall|k: int| 0 <= k < n implies !text::alike(
        (#[trigger] again[k]).id,
        comment.id,
    ) by {
        assert(again[k] == found[k]);
    }
    lemma_found(again, comment.id, 0, n);
}

/// The block of a comment that stands at an index gives the comment.
proof fn lemma_block_read(updated: Seq<char>, comment: CommentView, yaml: Seq<char>, at: int)
    requires
        updated.len() <= usize::MAX,
        comments::is_faithful(comment, yaml),
        comments::is_writable(comment),
        0 <= at <= updated.len() - comments::block(comment, yaml).len(),
        text::occurs_at(updated, comments::block(comment, yaml), at),
        comments::ends_line(updated.skip(at + comments::block(comment, yaml).len())),
    ensures
        comment_at(updated, at) == comment,
{
    let block = comments::block(comment, yaml);
    let before = updated.take(at);
    let after = updated.skip(at + block.len());
    assert(updated =~= before + (block + after)) by {
        assert(updated.subrange(at, at + block.len()) == block);
        assert forall|i: int| 0 <= i < updated.len() implies updated[i] == (before + (block
            + after))[i] by {
            if at <= i < at + block.len() {
                assert(updated.subrange(at, at + block.len())[i - at] == updated[i]);
            }
        }
    }
    comments::a_block_gives_back_its_comment(before, comment, yaml, after);
}

/// The comments of the body and the one at the new place are the comments of the updated body.
proof fn lemma_list(s: Seq<char>, comment: CommentView, at: int)
    requires
        source::fits(s),
        comments::appended(s, comment) is Ok,
        ({
            let updated = comments::appended(s, comment)->Ok_0.0;
            &&& source::fits(updated)
            &&& 0 <= at <= usize::MAX
            &&& comment_at(updated, at) == comment
            &&& starts_in(updated) == starts_in(s).push(at as usize)
        }),
    ensures
        document::document(comments::appended(s, comment)->Ok_0.0) matches Ok(document)
            && document.comments == document::document(s)->Ok_0.comments.push(comment),
{
    let updated = comments::appended(s, comment)->Ok_0.0;
    let found = document::document(s)->Ok_0.comments;
    let again = document::document(updated)->Ok_0.comments;
    let n = found.len() as int;
    comments::appending_only_adds(s, comment);
    comments_are_at_their_starts(s);
    comments_are_at_their_starts(updated);
    document::lemma_fits_len(updated);
    assert(starts_in(updated)[n] == at as usize);
    assert forall|k: int| 0 <= k < n implies again[k] == #[trigger] found[k] by {
        assert(starts_in(updated)[k] == starts_in(s)[k]);
        lemma_kept_comment(s, comment, k);
    }
    assert(again =~= found.push(comment));
}

/// A comment that the body had is read as before.
proof fn lemma_kept_comment(s: Seq<char>, comment: CommentView, k: int)
    requires
        source::fits(s),
        comments::appended(s, comment) is Ok,
        comments::appended(s, comment)->Ok_0.0.len() <= usize::MAX,
        0 <= k < starts_in(s).len(),
    ensures
        comment_at(comments::appended(s, comment)->Ok_0.0, starts_in(s)[k] as int) == comment_at(
            s,
            starts_in(s)[k] as int,
        ),
{
    let updated = comments::appended(s, comment)->Ok_0.0;
    let found = document::document(s)->Ok_0;
    let block = comments::rendered(comment)->0;
    let start = starts_in(s)[k] as int;
    document::lemma_fits_len(s);
    comments_are_at_their_starts(s);
    document::comments_are_whole_lines(s);
    assert(document::is_whole_lines(s, found.ranges[k]));
    let to = found.registry->0.direct_end as int;
    assert(found.ranges[k].end <= to);
    let head = s.take(to);
    let gap = comments::gap_behind(head);
    lemma_direct_end_in(s);
    assert(updated == comments::inserted(s, to, block));
    assert(updated.take(to) =~= head);
    if to > 0 && s[to - 1] != '\n' {
        reveal_strlit("\n");
        reveal_strlit("\n\n");
        reveal_strlit("\r\n\r\n");
        assert(head.last() == s[to - 1]);
        if text::finishes(head, "\n\n"@) {
            assert(head.subrange(to - 2, to)[1] == '\n');
        }
        if text::finishes(head, "\r\n\r\n"@) {
            assert(head.subrange(to - 4, to)[3] == '\n');
        }
        if text::finishes(head, "\n"@) {
            assert(head.subrange(to - 1, to)[0] == '\n');
        }
        assert(gap == "\n\n"@);
        assert(updated[to] == gap[0]);
    }
    document::lemma_block_progress(s, start);
    if start >= s.len() {
        assert(record::record_from(s, start, start) is Err);
    }
    lemma_same_block(s, updated, to, start);
}

/// The content of the section of the registry ends in the body.
proof fn lemma_direct_end_in(s: Seq<char>)
    requires
        source::fits(s),
        document::document(s) is Ok,
        document::document(s)->Ok_0.registry is Some,
        document::document(s)->Ok_0.ranges.len() > 0,
    ensures
        document::document(s)->Ok_0.registry->0.direct_end <= s.len(),
{
    let read = document::document(s)->Ok_0;
    document::comments_are_whole_lines(s);
    assert(document::is_whole_lines(s, read.ranges[0]));
    document::registry_is_a_section(s);
    document::lemma_fits_len(s);
    let sections = document::structural_sections(s, read.ranges)->0;
    comments::lemma_sections_bounded(s, read.ranges);
    let i = choose|i: int| 0 <= i < sections.len() && sections[i] == read.registry->0.section;
    assert(sections[i].end <= s.len());
}

} // verus!
