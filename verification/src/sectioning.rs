//! When sections can be changed, and what a change makes of a body.

use crate::characters;
use crate::document;
use crate::edits;
use crate::error::Failure;
use crate::markdown;
use crate::outline;
use crate::outline::RegionView;
use crate::properties;
use crate::text;
use crate::text::CharClass;
use vstd::prelude::*;

verus! {

/// Whether a section is the one with a title, whatever the case of its letters.
pub open spec fn is_only(sections: Seq<RegionView>, title: Seq<char>, i: int) -> bool {
    &&& 0 <= i < sections.len()
    &&& characters::same_letters(sections[i].title, title)
    &&& forall|j: int|
        0 <= j < sections.len() && j != i ==> !characters::same_letters(
            (#[trigger] sections[j]).title,
            title,
        )
}

/// Whether no section has a title.
pub open spec fn is_free(sections: Seq<RegionView>, title: Seq<char>) -> bool {
    forall|j: int|
        0 <= j < sections.len() ==> !characters::same_letters((#[trigger] sections[j]).title, title)
}

/// Whether a text can be the title of a new section: it is one line with something on it.
pub open spec fn is_title(title: Seq<char>) -> bool {
    &&& exists|i: int| 0 <= i < title.len() && !text::is_space(#[trigger] title[i])
    &&& forall|i: int| 0 <= i < title.len() ==> !characters::is_line_end(#[trigger] title[i])
}

/// Whether a range of a body has nothing in common with the section of the comments.
pub open spec fn is_clear(s: Seq<char>, start: int, end: int) -> bool {
    document::document(s) matches Ok(found) && (found.registry matches Some(registry) ==> (end
        <= registry.section.start || registry.section.end <= start))
}

pub proof fn lemma_is_only(sections: Seq<RegionView>, title: Seq<char>, wanted: Seq<char>, i: int)
    requires
        characters::strips_space(title, wanted),
        is_only(sections, wanted, i),
    ensures
        text::trim(title) == wanted,
        outline::only_titled(sections, text::trim(title)) == Ok::<Option<int>, nat>(Some(i)),
{
    characters::trimming_strips(title);
    characters::strips_to_one(title, wanted, text::trim(title), |c: char| text::is_space(c));
    characters::alike_is_same_letters(sections[i].title, wanted);
    assert forall|j: int| 0 <= j < sections.len() && j != i implies !outline::titled(
        #[trigger] sections[j],
        wanted,
    ) by {
        characters::alike_is_same_letters(sections[j].title, wanted);
    }
    edits::lemma_only_titled(sections, wanted, i);
}

pub proof fn lemma_is_free(sections: Seq<RegionView>, title: Seq<char>, wanted: Seq<char>)
    requires
        characters::strips_space(title, wanted),
        is_free(sections, wanted),
    ensures
        text::trim(title) == wanted,
        outline::only_titled(sections, text::trim(title)) == Ok::<Option<int>, nat>(None),
{
    characters::trimming_strips(title);
    characters::strips_to_one(title, wanted, text::trim(title), |c: char| text::is_space(c));
    assert forall|j: int| 0 <= j < sections.len() implies !outline::titled(
        #[trigger] sections[j],
        wanted,
    ) by {
        characters::alike_is_same_letters(sections[j].title, wanted);
    }
    edits::lemma_none_titled(sections, wanted);
}

pub proof fn lemma_is_title(title: Seq<char>)
    ensures
        markdown::title_check(title) is Ok <==> is_title(title),
{
    if title.contains('\r') {
        let i = choose|i: int| 0 <= i < title.len() && title[i] == '\r';
        assert(characters::is_line_end(title[i]));
    }
    if title.contains('\n') {
        let i = choose|i: int| 0 <= i < title.len() && title[i] == '\n';
        assert(characters::is_line_end(title[i]));
    }
    assert forall|i: int| 0 <= i < title.len() && characters::is_line_end(#[trigger] title[i]) implies
        title.contains('\r') || title.contains('\n') by {
        assert(title.contains(title[i]));
    }
    if !text::is_blank(title) {
        let i = choose|i: int| 0 <= i < title.len() && !text::is_space(#[trigger] title[i]);
        assert(!text::is_space(title[i]));
    }
}

/// A section can be set, extended and removed by its title where no other section has it, at whatever
/// level its heading is, and where it has nothing in common with the section of the comments, which are
/// in order.
pub proof fn sections_can_be_changed(
    s: Seq<char>,
    title: Seq<char>,
    wanted: Seq<char>,
    content: Seq<char>,
    i: int,
)
    requires
        characters::strips_space(title, wanted),
        is_only(markdown::sections_in(s), wanted, i),
        is_clear(
            s,
            markdown::sections_in(s)[i].start as int,
            markdown::sections_in(s)[i].end as int,
        ),
    ensures
        is_title(title) ==> markdown::section_set(s, title, content) is Ok,
        is_title(title) ==> markdown::section_extended(s, title, content) is Ok,
        markdown::section_removed(s, title) is Ok,
        markdown::content_named(s, title) matches Ok(Some(_)),
{
    lemma_is_only(markdown::sections_in(s), title, wanted, i);
    lemma_is_title(title);
}

/// What setting a section makes of a body: all up to the heading and its line is kept, the content comes
/// between line feeds, without the line endings at its two ends, and where something follows, a line
/// feed and all of it. Extending a section keeps what it held before the new paragraph, with a blank
/// line between the two.
pub proof fn set_sections_hold_the_content(
    s: Seq<char>,
    title: Seq<char>,
    wanted: Seq<char>,
    content: Seq<char>,
    core: Seq<char>,
    present: Seq<char>,
    i: int,
)
    requires
        s.len() <= usize::MAX,
        characters::strips_space(title, wanted),
        is_only(markdown::sections_in(s), wanted, i),
        markdown::sections_in(s)[i].end < s.len() ==> s[markdown::sections_in(s)[i].end as int]
            != '\r',
        characters::strips_lines(content, core),
        characters::strips_lines(
            s.subrange(
                markdown::sections_in(s)[i].content_start as int,
                markdown::sections_in(s)[i].end as int,
            ),
            present,
        ),
    ensures
        ({
            let section = markdown::sections_in(s)[i];
            let feed = seq!['\n'];
            let head = s.take(section.content_start as int);
            let rest = if section.end < s.len() {
                feed + s.skip(section.end as int)
            } else {
                Seq::empty()
            };
            let both = if text::is_blank(present) {
                core
            } else {
                present + feed + feed + core
            };
            &&& markdown::section_set(s, title, content) matches Ok(changed) ==> changed == head + (
            if text::is_blank(content) {
                Seq::empty()
            } else {
                feed + core + feed
            }) + rest
            &&& markdown::section_extended(s, title, content) matches Ok(changed) ==> changed
                == if text::is_blank(content) {
                s
            } else {
                head + (feed + both + feed) + rest
            }
        }),
{
    let section = markdown::sections_in(s)[i];
    let held = s.subrange(section.content_start as int, section.end as int);
    let drop = |c: char| characters::is_line_end(c);
    lemma_is_only(markdown::sections_in(s), title, wanted, i);
    characters::trimming_strips(content);
    characters::strips_to_one(content, core, text::trim_both(content, CharClass::LineEnd), drop);
    characters::trimming_strips(held);
    characters::strips_to_one(held, present, text::trim_both(held, CharClass::LineEnd), drop);
    reveal_strlit("\n");
    reveal_strlit("\n\n");
    let feed = seq!['\n'];
    assert("\n"@ =~= feed);
    assert("\n\n"@ =~= feed + feed);
    properties::replacing_keeps_every_other_byte(s, i, content);
    if !text::is_blank(content) {
        let both = markdown::continued(Some(present), content);
        properties::replacing_keeps_every_other_byte(s, i, both);
        lemma_continued(present, content, core, held);
    }
}

proof fn lemma_continued(present: Seq<char>, content: Seq<char>, core: Seq<char>, held: Seq<char>)
    requires
        !text::is_blank(content),
        core == text::trim_both(content, CharClass::LineEnd),
        present == text::trim_both(held, CharClass::LineEnd),
    ensures
        ({
            let both = markdown::continued(Some(present), content);
            let feed = seq!['\n'];
            &&& !text::is_blank(both)
            &&& text::trim_both(both, CharClass::LineEnd) == if text::is_blank(present) {
                core
            } else {
                present + feed + feed + core
            }
        }),
{
    let both = markdown::continued(Some(present), content);
    let feed = seq!['\n'];
    reveal_strlit("\n\n");
    assert("\n\n"@ =~= feed + feed);
    edits::lemma_trim_again(content, CharClass::LineEnd);
    edits::lemma_trim_again(held, CharClass::LineEnd);
    edits::lemma_ends_of_trimmed(content, CharClass::LineEnd);
    edits::lemma_ends_of_trimmed(held, CharClass::LineEnd);
    edits::lemma_not_blank(content);
    text::lemma_trail_is(present, CharClass::LineEnd);
    let k = choose|k: int| 0 <= k < core.len() && !text::is_space(#[trigger] core[k]);
    if text::is_blank(present) {
        assert(!text::is_space(both[k]));
    } else {
        let m = choose|m: int| 0 <= m < present.len() && !text::is_space(#[trigger] present[m]);
        if text::trail(present, CharClass::LineEnd) > 0 {
            assert(text::in_class(CharClass::LineEnd, present[present.len() - 1]));
        }
        assert(text::trim_end(present, CharClass::LineEnd) =~= present);
        assert(both =~= present + feed + feed + core);
        assert(both[present.len() + 2 + k] == core[k]);
        assert(both[0] == present[0]);
        assert(both.last() == core.last());
        edits::lemma_trimmed(both, CharClass::LineEnd);
    }
}

/// A title that no section has makes a new section at the end: all of the body but the line endings at
/// its end, a blank line, a heading of the second level with the title, and the content behind a blank
/// line. Where there is no such section, none is shown, none is removed, and no item of it is found.
pub proof fn missing_sections_are_made(
    s: Seq<char>,
    title: Seq<char>,
    wanted: Seq<char>,
    content: Seq<char>,
    core: Seq<char>,
    index: nat,
)
    requires
        characters::strips_space(title, wanted),
        is_free(markdown::sections_in(s), wanted),
        document::document(s) is Ok,
        characters::strips_lines(content, core),
    ensures
        markdown::content_named(s, title) == Ok::<Option<Seq<char>>, Failure>(None),
        markdown::section_removed(s, title) is Err,
        markdown::item_named(s, title, index) is Err,
        is_title(title) ==> ({
            let feed = seq!['\n'];
            let set = markdown::section_set(s, title, content);
            &&& markdown::section_extended(s, title, content) is Ok
            &&& set is Ok
            &&& exists|end: int|
                #![trigger s.take(end)]
                0 <= end <= s.len() && (forall|k: int|
                    end <= k < s.len() ==> characters::is_line_end(#[trigger] s[k])) && (end > 0
                    ==> !characters::is_line_end(s[end - 1])) && set->Ok_0 == s.take(end) + (if end
                    > 0 {
                    feed + feed
                } else {
                    Seq::empty()
                }) + seq!['#', '#', ' '] + wanted + (if text::is_blank(content) {
                    Seq::empty()
                } else {
                    feed + feed + core
                }) + feed
        }),
{
    lemma_is_free(markdown::sections_in(s), title, wanted);
    lemma_is_title(title);
    if is_title(title) {
        let feed = seq!['\n'];
        reveal_strlit("\n");
        reveal_strlit("\n\n");
        reveal_strlit("## ");
        assert("\n"@ =~= feed);
        assert("\n\n"@ =~= feed + feed);
        assert("## "@ =~= seq!['#', '#', ' ']);
        characters::trimming_strips(content);
        characters::strips_to_one(
            content,
            core,
            text::trim_both(content, CharClass::LineEnd),
            |c: char| characters::is_line_end(c),
        );
        let base = text::trim_end(s, CharClass::LineEnd);
        let end = base.len() as int;
        text::lemma_trail_is(s, CharClass::LineEnd);
        assert(base =~= s.take(end));
        assert(markdown::section_set(s, title, content)->Ok_0 == markdown::with_section(
            s,
            title,
            content,
        ));
    }
}

/// Where two sections have a title, neither is shown or changed by it.
pub proof fn shared_titles_are_refused(
    s: Seq<char>,
    title: Seq<char>,
    wanted: Seq<char>,
    content: Seq<char>,
    i: int,
    j: int,
)
    requires
        characters::strips_space(title, wanted),
        0 <= i < j < markdown::sections_in(s).len(),
        characters::same_letters(markdown::sections_in(s)[i].title, wanted),
        characters::same_letters(markdown::sections_in(s)[j].title, wanted),
    ensures
        markdown::content_named(s, title) is Err,
        markdown::section_set(s, title, content) is Err,
        !text::is_blank(content) ==> markdown::section_extended(s, title, content) is Err,
        markdown::section_removed(s, title) is Err,
        markdown::item_added(s, title, content) is Err,
{
    let sections = markdown::sections_in(s);
    characters::trimming_strips(title);
    characters::strips_to_one(title, wanted, text::trim(title), |c: char| text::is_space(c));
    characters::alike_is_same_letters(sections[i].title, wanted);
    characters::alike_is_same_letters(sections[j].title, wanted);
    edits::lemma_titled(sections, wanted);
}

/// A title of several lines, or with nothing on it, is no title of a section.
pub proof fn unfit_titles_are_refused(s: Seq<char>, title: Seq<char>, content: Seq<char>)
    requires
        !is_title(title),
    ensures
        markdown::section_set(s, title, content) is Err,
{
    lemma_is_title(title);
}

/// A section is shown as it stands: from behind its heading line to where it ends, without the line
/// endings at the two ends.
pub proof fn sections_are_shown_as_they_stand(
    s: Seq<char>,
    title: Seq<char>,
    wanted: Seq<char>,
    i: int,
)
    requires
        characters::strips_space(title, wanted),
        is_only(markdown::sections_in(s), wanted, i),
    ensures
        ({
            let section = markdown::sections_in(s)[i];
            markdown::content_named(s, title) matches Ok(Some(content)) && characters::strips_lines(
                s.subrange(section.content_start as int, section.end as int),
                content,
            )
        }),
{
    let section = markdown::sections_in(s)[i];
    lemma_is_only(markdown::sections_in(s), title, wanted, i);
    characters::trimming_strips(s.subrange(section.content_start as int, section.end as int));
}

/// Removing a section takes its heading and all that it holds out of a body: what stands before it and
/// behind it is kept, up to the line endings next to it, in whose place a blank line comes where
/// something stands on both sides.
pub proof fn removed_sections_leave_the_rest(
    s: Seq<char>,
    title: Seq<char>,
    wanted: Seq<char>,
    i: int,
)
    requires
        s.len() <= usize::MAX,
        characters::strips_space(title, wanted),
        is_only(markdown::sections_in(s), wanted, i),
    ensures
        markdown::section_removed(s, title) matches Ok(changed) ==> exists|p: int, q: int|
            #![trigger s.take(p), s.skip(q)]
            is_cut(s, changed, p, markdown::sections_in(s)[i], q),
{
    let section = markdown::sections_in(s)[i];
    lemma_is_only(markdown::sections_in(s), title, wanted, i);
    edits::lemma_section_parts(s, i);
    let head = s.take(section.start as int);
    let tail = s.skip(section.end as int);
    text::lemma_trail_is(head, CharClass::LineEnd);
    text::lemma_lead_is(tail, CharClass::LineEnd);
    let p = section.start - text::trail(head, CharClass::LineEnd);
    let q = section.end + text::lead(tail, CharClass::LineEnd);
    reveal_strlit("\n");
    reveal_strlit("\n\n");
    assert("\n"@ =~= seq!['\n']);
    assert("\n\n"@ =~= seq!['\n', '\n']);
    if markdown::section_removed(s, title) is Ok {
        let changed = markdown::section_removed(s, title)->Ok_0;
        assert(text::trim_end(head, CharClass::LineEnd) =~= s.take(p));
        assert(text::trim_start(tail, CharClass::LineEnd) =~= s.skip(q));
        assert forall|k: int| p <= k < section.start implies characters::is_line_end(
            #[trigger] s[k],
        ) by {
            assert(head[k] == s[k]);
        }
        assert forall|k: int| section.end <= k < q implies characters::is_line_end(
            #[trigger] s[k],
        ) by {
            assert(tail[k - section.end] == s[k]);
        }
        if q < s.len() {
            assert(tail[q - section.end] == s[q]);
        }
        if p > 0 {
            assert(head[p - 1] == s[p - 1]);
        }
        let kept = s.take(p) + (if p > 0 && q < s.len() {
            seq!['\n', '\n']
        } else {
            Seq::empty()
        }) + s.skip(q);
        assert(changed =~= kept || changed =~= kept + seq!['\n']);
        assert(is_cut(s, changed, p, section, q));
    }
}

/// Whether a body is another one without a section, which is cut out from one index to a second one.
pub open spec fn is_cut(
    s: Seq<char>,
    changed: Seq<char>,
    p: int,
    section: RegionView,
    q: int,
) -> bool {
    let kept = s.take(p) + (if p > 0 && q < s.len() {
        seq!['\n', '\n']
    } else {
        Seq::empty()
    }) + s.skip(q);
    &&& 0 <= p <= section.start
    &&& section.end <= q <= s.len()
    &&& forall|k: int| p <= k < section.start ==> characters::is_line_end(#[trigger] s[k])
    &&& forall|k: int| section.end <= k < q ==> characters::is_line_end(#[trigger] s[k])
    &&& p > 0 ==> !characters::is_line_end(s[p - 1])
    &&& q < s.len() ==> !characters::is_line_end(s[q])
    &&& changed == kept || changed == kept + seq!['\n']
}

/// A line of one to six number signs, a blank and a title is a heading of that level with that title.
/// More than six are none, and so are number signs with no blank behind them.
pub proof fn headings_are_read(level: nat, title: Seq<char>, line: Seq<char>)
    requires
        level > 0,
        title.len() > 0,
        !text::is_space(title[0]),
        !text::is_space(title.last()),
        title.last() != '#',
        line.len() == level + 1 + title.len(),
        forall|i: int| 0 <= i < level ==> line[i] == '#',
        line.skip(level as int + 1) == title,
        line[level as int] != '#',
    ensures
        outline::atx(line) == if level <= 6 && (line[level as int] == ' ' || line[level as int]
            == '\t') {
            Some((level as u8, title))
        } else {
            None
        },
{
    text::lemma_lead(line, CharClass::Hash, level as int);
    let rest = line.skip(level as int);
    let gap = rest[0];
    assert(gap == line[level as int]);
    if gap == ' ' || gap == '\t' {
        assert(rest =~= seq![gap] + title + Seq::<char>::empty());
        edits::lemma_trim_around(seq![gap], title, Seq::empty(), CharClass::Space);
        edits::lemma_trimmed(title, CharClass::Space);
        assert(text::trim(rest) == title);
        text::lemma_trail(title, CharClass::Hash, 0);
    }
}

/// A section ends where the next one of its level or a higher one begins, or with the body.
pub proof fn sections_end_before_the_next(s: Seq<char>, i: int)
    requires
        0 <= i < markdown::sections_in(s).len(),
        s.len() <= usize::MAX,
    ensures
        ({
            let sections = markdown::sections_in(s);
            let section = sections[i];
            exists|m: int|
                i < m <= sections.len() && section.end == (if m < sections.len() {
                    (#[trigger] sections[m]).start as int
                } else {
                    s.len() as int
                }) && (forall|k: int|
                    i < k < m ==> (#[trigger] sections[k]).level > section.level) && (m
                    < sections.len() ==> sections[m].level <= section.level)
        }),
{
    let h = properties::headings_in(s);
    let sections = markdown::sections_in(s);
    let level = h[i].level;
    let m = edits::find_peer(h, i + 1, level);
    edits::lemma_peer(h, i + 1, level, s.len() as usize, m);
    assert forall|k: int| i < k < m implies (#[trigger] sections[k]).level > level by {
        assert(h[k].level > level);
    }
    let next = sections[m];
    assert(m < sections.len() ==> next.start == h[m].start);
}

proof fn lemma_between_holds(s: Seq<char>, spans: Seq<outline::Span>, from: int, to: int, at: int)
    requires
        0 <= from <= at < to,
        at < s.len(),
        edits::is_line_break(s, at),
        from == 0 || edits::is_line_break(s, from),
        markdown::line_heading(s, spans, at) is Some,
    ensures
        edits::headings_between(s, spans, from, to).contains(
            markdown::line_heading(s, spans, at)->0,
        ),
    decreases at - from,
{
    let all = edits::headings_between(s, spans, from, to);
    let heading = markdown::line_heading(s, spans, at)->0;
    let end = text::line_end(s, from);
    text::lemma_line_end(s, from);
    let rest = edits::headings_between(s, spans, end, to);
    if from == at {
        assert(all[0] == heading);
    } else {
        edits::lemma_line_within(s, from, at);
        lemma_between_holds(s, spans, end, to, at);
        let k = choose|k: int| 0 <= k < rest.len() && rest[k] == heading;
        if markdown::line_heading(s, spans, from) is Some {
            assert(all[k + 1] == rest[k]);
        } else {
            assert(all[k] == rest[k]);
        }
    }
}

/// Every line that the Markdown parser reports as a heading, and that is one of number signs and a title,
/// opens a section with that title and level.
pub proof fn reported_headings_open_sections(s: Seq<char>, at: int, level: u8, title: Seq<char>)
    requires
        s.len() <= usize::MAX,
        0 <= at < s.len(),
        edits::is_line_break(s, at),
        edits::reports(s, at),
        outline::atx(text::trim_start(text::line_at(s, at), CharClass::Space)) == Some(
            (level, title),
        ),
    ensures
        exists|i: int|
            0 <= i < markdown::sections_in(s).len() && (#[trigger] markdown::sections_in(
                s,
            )[i]).start == at && markdown::sections_in(s)[i].level == level
                && markdown::sections_in(s)[i].title == title
                && markdown::sections_in(s)[i].content_start == text::line_end(s, at),
{
    let spans = markdown::marks(s).headings;
    let len = s.len() as int;
    let h = properties::headings_in(s);
    let heading = markdown::line_heading(s, spans, at)->0;
    lemma_between_holds(s, spans, 0, len, at);
    edits::lemma_all_headings(s, spans, 0, Seq::empty());
    let all = edits::headings_between(s, spans, 0, len);
    assert(Seq::<outline::HeadingView>::empty() + all =~= all);
    let i = choose|i: int| 0 <= i < h.len() && h[i] == heading;
    text::lemma_line_end(s, at);
    assert(markdown::sections_in(s)[i].start == h[i].start);
}

} // verus!
