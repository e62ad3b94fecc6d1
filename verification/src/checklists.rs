//! Which checklist items there are, when they can be changed, and what a change makes of a body.

use crate::adding;
use crate::adding::BoxView;
use crate::characters;
use crate::document;
use crate::edits;
use crate::error::Failure;
use crate::markdown;
use crate::markdown::{CheckboxView, ItemView, TaskView};
use crate::model;
use crate::outline;
use crate::outline::RegionView;
use crate::properties;
use crate::sectioning;
use crate::source;
use crate::text;
use crate::text::CharClass;
use vstd::prelude::*;

verus! {

/// Whether a range is one line of a text, with its line feed.
pub open spec fn is_whole_line(s: Seq<char>, start: int, end: int) -> bool {
    &&& 0 <= start < end <= s.len()
    &&& start == 0 || s[start - 1] == '\n'
    &&& end == s.len() || s[end - 1] == '\n'
    &&& forall|i: int| start <= i < end - 1 ==> #[trigger] s[i] != '\n'
}

/// Whether a text is another one without what stands from one index to a second one.
pub open spec fn is_without(s: Seq<char>, changed: Seq<char>, start: int, end: int) -> bool {
    &&& 0 <= start <= end <= s.len()
    &&& changed.len() == s.len() - (end - start)
    &&& forall|i: int| 0 <= i < start ==> #[trigger] changed[i] == s[i]
    &&& forall|i: int| end <= i < s.len() ==> changed[i - (end - start)] == #[trigger] s[i]
}

/// Whether a text is another one with one character written.
pub open spec fn is_with(s: Seq<char>, changed: Seq<char>, at: int, c: char) -> bool {
    &&& 0 <= at < s.len()
    &&& changed.len() == s.len()
    &&& changed[at] == c
    &&& forall|i: int| 0 <= i < s.len() && i != at ==> #[trigger] changed[i] == s[i]
}

proof fn lemma_item_line(s: Seq<char>, i: int)
    requires
        s.len() <= usize::MAX,
        0 <= i < markdown::items_in(s).len(),
    ensures
        ({
            let item = markdown::items_in(s)[i];
            &&& is_whole_line(s, item.line.start as int, item.line.end as int)
            &&& item.line.start <= item.at < item.line.end
            &&& item.line.end == text::line_end(s, item.line.start as int)
        }),
{
    let item = markdown::items_in(s)[i];
    properties::items_are_counted(s);
    markdown::items_tell_the_body(s, i);
    text::lemma_line_start(s, item.line.start as int);
    text::lemma_line_end(s, item.line.start as int);
}

/// An item can be set, turned over and removed by its number in the body, just where there is one.
/// Removing it takes its line out of the body, and leaves every other character. Setting it writes a
/// small x or a space at its place and nothing else, and turning it over writes the one that it has not.
pub proof fn items_are_changed_by_number(s: Seq<char>, number: nat, checked: bool)
    requires
        source::fits(s),
    ensures
        ({
            let items = markdown::items_in(s);
            let found = markdown::item_numbered(s, number);
            let removed = markdown::item_removed(s, found);
            let set = markdown::item_set(s, found, checked);
            let toggled = markdown::item_toggled(s, found);
            &&& removed is Ok <==> 1 <= number <= items.len()
            &&& set is Ok <==> 1 <= number <= items.len()
            &&& toggled is Ok <==> 1 <= number <= items.len()
            &&& 1 <= number <= items.len() ==> {
                let item = items[number - 1];
                let start = item.line.start as int;
                let end = item.line.end as int;
                &&& is_whole_line(s, start, end)
                &&& start <= item.at < end
                &&& is_without(s, removed->Ok_0, start, end)
                &&& is_with(
                    s,
                    set->Ok_0,
                    item.at,
                    if checked {
                        'x'
                    } else {
                        ' '
                    },
                )
                &&& is_with(
                    s,
                    toggled->Ok_0,
                    item.at,
                    if s[item.at] == ' ' {
                        'x'
                    } else {
                        ' '
                    },
                )
            }
        }),
{
    document::lemma_fits_len(s);
    properties::items_are_found_by_number(s, number);
    if 1 <= number <= markdown::items_in(s).len() {
        let item = markdown::items_in(s)[number - 1];
        lemma_item_line(s, number - 1);
        markdown::items_tell_the_body(s, number - 1);
        let start = item.line.start as int;
        let end = item.line.end as int;
        let removed = s.take(start) + s.skip(end);
        assert(markdown::item_removed(s, markdown::item_numbered(s, number))->Ok_0 =~= removed);
        assert forall|i: int| end <= i < s.len() implies removed[i - (end - start)]
            == #[trigger] s[i] by {
            assert(removed[i - (end - start)] == s.skip(end)[i - end]);
        }
    }
}

/// An item can be set, turned over and removed by the title of its section, where no other section has
/// it, and its number there. It is changed as it is by its number in the body.
pub proof fn items_are_changed_in_their_section(
    s: Seq<char>,
    section: Seq<char>,
    wanted: Seq<char>,
    j: int,
    i: int,
    index: nat,
)
    requires
        source::fits(s),
        characters::strips_space(section, wanted),
        sectioning::is_only(markdown::sections_in(s), wanted, j),
        0 <= i < markdown::items_in(s).len(),
        markdown::items_in(s)[i].section == Some(markdown::sections_in(s)[j].title),
        markdown::items_in(s)[i].index == index,
    ensures
        markdown::item_named(s, section, index) == markdown::item_numbered(s, (i + 1) as nat),
        markdown::item_named(s, section, index) is Ok,
{
    let items = markdown::items_in(s);
    let sections = markdown::sections_in(s);
    document::lemma_fits_len(s);
    sectioning::lemma_is_only(sections, section, wanted, j);
    characters::alike_is_same_letters(sections[j].title, wanted);
    assert(markdown::is_item(items[i], section, index));
    properties::items_are_counted_under_their_heading(s, i);
    lemma_index_positive(s, i);
    properties::items_are_found_in_their_section(s, section, index);
    let item = markdown::item_named(s, section, index)->Ok_0;
    properties::items_are_found_by_number(s, item.global_index);
    let k = item.global_index - 1;
    assert(markdown::is_item(items[k], section, index));
    lemma_one_section(s, wanted, j, k);
    lemma_one_section(s, wanted, j, i);
    lemma_numbers_differ(s, i, k);
    properties::items_are_counted(s);
    properties::items_are_found_by_number(s, (i + 1) as nat);
}

proof fn lemma_index_positive(s: Seq<char>, i: int)
    requires
        0 <= i < markdown::items_in(s).len(),
    ensures
        markdown::items_in(s)[i].index >= 1,
{
}

/// An item whose section has a title that no other section has is in that section.
proof fn lemma_one_section(s: Seq<char>, wanted: Seq<char>, j: int, i: int)
    requires
        sectioning::is_only(markdown::sections_in(s), wanted, j),
        0 <= i < markdown::items_in(s).len(),
        markdown::items_in(s)[i].section matches Some(title) && text::alike(title, wanted),
    ensures
        section_at(s, i) == Some(j),
{
    let sections = markdown::sections_in(s);
    let tasks = markdown::tasks_in(s, markdown::marks(s));
    properties::items_are_counted_under_their_heading(s, i);
    let k = markdown::section_index(sections, tasks[i])->0;
    characters::alike_is_same_letters(sections[k].title, wanted);
}

/// The section that holds an item: the deepest one, or none.
pub open spec fn section_at(s: Seq<char>, i: int) -> Option<int> {
    let sections = markdown::sections_in(s);
    outline::deepest(sections, markdown::items_in(s)[i].line.start as int, sections.len())
}

proof fn lemma_count_grows(
    regions: Seq<RegionView>,
    tasks: Seq<TaskView>,
    section: Option<int>,
    m: nat,
    n: nat,
)
    requires
        m <= n <= tasks.len(),
    ensures
        markdown::count_in(regions, tasks, section, m) <= markdown::count_in(
            regions,
            tasks,
            section,
            n,
        ),
        (forall|k: int|
            m <= k < n ==> markdown::section_index(regions, #[trigger] tasks[k]) != section)
            ==> markdown::count_in(regions, tasks, section, m) == markdown::count_in(
            regions,
            tasks,
            section,
            n,
        ),
    decreases n - m,
{
    if m < n {
        lemma_count_grows(regions, tasks, section, m, (n - 1) as nat);
    }
}

proof fn lemma_numbers_differ(s: Seq<char>, i: int, j: int)
    requires
        0 <= i < markdown::items_in(s).len(),
        0 <= j < markdown::items_in(s).len(),
        section_at(s, i) == section_at(s, j),
        markdown::items_in(s)[i].index == markdown::items_in(s)[j].index,
    ensures
        i == j,
{
    let regions = markdown::sections_in(s);
    let tasks = markdown::tasks_in(s, markdown::marks(s));
    let section = section_at(s, i);
    assert(markdown::section_index(regions, tasks[i]) == section);
    assert(markdown::section_index(regions, tasks[j]) == section);
    if i < j {
        lemma_count_grows(regions, tasks, section, (i + 1) as nat, j as nat);
    } else if j < i {
        lemma_count_grows(regions, tasks, section, (j + 1) as nat, i as nat);
    }
}

/// The items of a section are numbered from one, in the order in which they stand: the first has the
/// number one, and each further one the next number.
pub proof fn items_of_a_section_are_numbered_from_one(s: Seq<char>, i: int, j: int)
    requires
        -1 <= i < j < markdown::items_in(s).len(),
        i >= 0 ==> section_at(s, i) == section_at(s, j),
        forall|k: int| i < k < j ==> #[trigger] section_at(s, k) != section_at(s, j),
    ensures
        markdown::items_in(s)[j].index == if i < 0 {
            1
        } else {
            markdown::items_in(s)[i].index + 1
        },
{
    let regions = markdown::sections_in(s);
    let tasks = markdown::tasks_in(s, markdown::marks(s));
    let section = section_at(s, j);
    assert(markdown::section_index(regions, tasks[j]) == section);
    assert forall|k: int| i + 1 <= k < j implies markdown::section_index(
        regions,
        #[trigger] tasks[k],
    ) != section by {
        assert(section_at(s, k) != section);
    }
    lemma_count_grows(regions, tasks, section, (i + 1) as nat, j as nat);
    if i >= 0 {
        assert(markdown::section_index(regions, tasks[i]) == section);
    }
}

/// The checkbox of a list item is read: behind a bullet, or up to nine digits and a point or a bracket,
/// and blanks, a state in brackets, and a blank or the end. A space is an open item, a small or a capital
/// x a checked one. The text is what follows, without the white space around it.
pub proof fn checkboxes_are_read(
    marker: Seq<char>,
    blanks: Seq<char>,
    state: char,
    rest: Seq<char>,
    words: Seq<char>,
)
    requires
        ({
            ||| marker.len() == 1 && (marker[0] == '-' || marker[0] == '*' || marker[0] == '+')
            ||| 2 <= marker.len() <= 10 && (marker.last() == '.' || marker.last() == ')') && forall|
                i: int,
            |
                0 <= i < marker.len() - 1 ==> '0' <= #[trigger] marker[i] <= '9'
        }),
        blanks.len() > 0,
        forall|i: int|
            0 <= i < blanks.len() ==> (#[trigger] blanks[i] == ' ' || blanks[i] == '\t'),
        state == ' ' || state == 'x' || state == 'X',
        rest.len() > 0 ==> rest[0] == ' ' || rest[0] == '\t',
        characters::strips_space(rest, words),
    ensures
        markdown::checkbox(marker + blanks + seq!['[', state, ']'] + rest) == Some(
            CheckboxView {
                at: (marker.len() + blanks.len() + 1) as int,
                checked: state != ' ',
                text: words,
            },
        ),
{
    let line = marker + blanks + seq!['[', state, ']'] + rest;
    let end = marker.len() as int;
    characters::trimming_strips(rest);
    characters::strips_to_one(rest, words, text::trim(rest), |c: char| text::is_space(c));
    assert(line[0] == marker[0]);
    if marker.len() == 1 {
        assert(markdown::marker_end(line) == Some(1int));
    } else {
        assert(line[end - 1] == marker.last());
        assert forall|i: int| 0 <= i < end - 1 implies text::in_class(
            CharClass::Digit,
            #[trigger] line[i],
        ) by {
            assert(line[i] == marker[i]);
        }
        text::lemma_lead(line, CharClass::Digit, end - 1);
        assert('0' <= marker[0] <= '9');
        assert(markdown::marker_end(line) == Some(end));
    }
    let tail = line.skip(end);
    assert forall|i: int| 0 <= i < blanks.len() implies text::in_class(
        CharClass::Blank,
        #[trigger] tail[i],
    ) by {
        assert(tail[i] == blanks[i]);
    }
    assert(tail[blanks.len() as int] == '[');
    text::lemma_lead(tail, CharClass::Blank, blanks.len() as int);
    let open = end + blanks.len();
    assert(line[open] == '[' && line[open + 1] == state && line[open + 2] == ']');
    assert(line.skip(open + 3) =~= rest);
    if rest.len() > 0 {
        assert(line[open + 3] == rest[0]);
    }
}

proof fn lemma_boxes_hold(s: Seq<char>, from: int, to: int, at: int)
    requires
        0 <= from <= at < to,
        at < s.len(),
        edits::is_line_break(s, at),
        adding::line_box(s, at) is Some,
    ensures
        adding::boxes_between(s, from, to).contains(adding::line_box(s, at)->0),
    decreases at - from,
{
    let all = adding::boxes_between(s, from, to);
    let found = adding::line_box(s, at)->0;
    let end = text::line_end(s, from);
    text::lemma_line_end(s, from);
    let rest = adding::boxes_between(s, end, to);
    if from == at {
        assert(all[0] == found);
    } else {
        edits::lemma_line_within(s, from, at);
        lemma_boxes_hold(s, end, to, at);
        let k = choose|k: int| 0 <= k < rest.len() && rest[k] == found;
        if adding::line_box(s, from) is Some {
            assert(all[k + 1] == rest[k]);
        } else {
            assert(all[k] == rest[k]);
        }
    }
}

/// Every line with a checkbox that the Markdown parser reports outside the comments is an item with that
/// state and text.
pub proof fn reported_checkboxes_are_items(s: Seq<char>, at: int)
    requires
        s.len() <= usize::MAX,
        0 <= at < s.len(),
        edits::is_line_break(s, at),
        markdown::checkbox(text::trim_start(text::line_at(s, at), CharClass::Space)) is Some,
        markdown::state_index(text::line_at(s, at), at) matches Some(state) && adding::takes(
            s,
            state,
        ),
    ensures
        ({
            let found = markdown::checkbox(
                text::trim_start(text::line_at(s, at), CharClass::Space),
            )->0;
            exists|i: int|
                0 <= i < markdown::items_in(s).len() && (#[trigger] markdown::items_in(
                    s,
                )[i]).line.start == at && markdown::items_in(s)[i].checked == found.checked
                    && markdown::items_in(s)[i].text == found.text
        }),
{
    let len = s.len() as int;
    lemma_boxes_hold(s, 0, len, at);
    adding::lemma_boxes(s, 0, 1, Seq::empty());
    let boxes = adding::boxes_of(markdown::tasks_in(s, markdown::marks(s)));
    let all = adding::boxes_between(s, 0, len);
    assert(adding::boxes_of(Seq::empty()) =~= Seq::<BoxView>::empty());
    assert(Seq::<BoxView>::empty() + all =~= all);
    let found = adding::line_box(s, at)->0;
    let i = choose|i: int| 0 <= i < all.len() && all[i] == found;
    assert(boxes.len() == markdown::items_in(s).len());
    assert(boxes[i] == found);
    adding::lemma_item(s, i);
}

/// Where the content of a section itself ends: where the next section begins, where that is one within
/// it, and where the section ends elsewhere.
pub proof fn own_content_ends_before_the_first_inner_section(s: Seq<char>, i: int)
    requires
        s.len() <= usize::MAX,
        0 <= i < markdown::sections_in(s).len(),
    ensures
        ({
            let sections = markdown::sections_in(s);
            adding::direct_end(s, i) == if i + 1 < sections.len() && sections[i + 1].level
                > sections[i].level {
                sections[i + 1].start as int
            } else {
                sections[i].end as int
            }
        }),
{
    let sections = markdown::sections_in(s);
    let section = sections[i];
    let h = properties::headings_in(s);
    let p = section.start as int;
    let a = section.content_start as int;
    edits::lemma_section_parts(s, i);
    properties::lemma_headings_in(s);
    let n = i + 1 + edits::mid_part(s, p, a, section.end as int).len();
    assert forall|k: int| 0 <= k <= i implies !outline::is_child(
        #[trigger] sections[k],
        section,
    ) by {
        assert(h[k].start <= h[i].start);
    }
    edits::lemma_peer(h, i + 1, section.level, s.len() as usize, n);
    if i + 1 < sections.len() && sections[i + 1].level > section.level {
        assert(n > i + 1);
        assert(h[i].content_start <= h[i + 1].start);
        if n < h.len() {
            assert(h[i + 1].start < h[n].start);
        }
        assert(h[i + 1].start < h[i + 1].content_start);
        assert(outline::is_child(sections[i + 1], section));
        adding::lemma_child_found(sections, section, 0, i + 1);
    } else {
        assert(n == i + 1) by {
            if n > i + 1 {
                assert(h[i + 1].level > section.level);
            }
        }
        assert forall|k: int| i < k < sections.len() implies !outline::is_child(
            #[trigger] sections[k],
            section,
        ) by {
            if k > n {
                assert(h[n].start < h[k].start);
            }
        }
        adding::lemma_no_child(sections, section, 0);
    }
}

/// Whether a body is another one with the line of an open item behind the content of a section, which
/// stands from one index to a second one and is kept without the line endings around it.
pub open spec fn is_added(
    s: Seq<char>,
    changed: Seq<char>,
    a: int,
    b: int,
    present: Seq<char>,
    gap: Seq<char>,
    words: Seq<char>,
) -> bool {
    let feed = seq!['\n'];
    let rest = if b < s.len() {
        feed + s.skip(b)
    } else {
        Seq::empty()
    };
    &&& characters::strips_lines(s.subrange(a, b), present)
    &&& present.len() == 0 ==> gap.len() == 0
    &&& present.len() > 0 ==> gap == feed || gap == feed + feed
    &&& changed == s.take(a) + feed + present + gap + seq!['-', ' ', '[', ' ', ']', ' '] + words
        + feed + rest
}

/// A new line with nothing but line endings around what it follows.
proof fn lemma_with_line(s: Seq<char>, a: int, b: int, line: Seq<char>)
    requires
        0 <= a <= b <= s.len(),
        b < s.len() ==> s[b] != '\r' && s[b] != '\n',
    ensures
        ({
            let feed = seq!['\n'];
            let present = text::trim_both(s.subrange(a, b), CharClass::LineEnd);
            let rest = if b < s.len() {
                feed + s.skip(b)
            } else {
                Seq::empty()
            };
            markdown::with_line(s, a, b, line) == s.take(a) + feed + present + markdown::item_gap(
                present,
            ) + line + feed + rest
        }),
{
    let feed = seq!['\n'];
    reveal_strlit("\n");
    assert("\n"@ =~= feed);
    let present = text::trim_both(s.subrange(a, b), CharClass::LineEnd);
    let gap = markdown::item_gap(present);
    let rest = if b < s.len() {
        feed + s.skip(b)
    } else {
        Seq::empty()
    };
    if b < s.len() {
        let tail = s.skip(b);
        assert(tail[0] == s[b]);
        text::lemma_lead(tail, CharClass::LineEnd, 0);
        assert(text::trim_start(tail, CharClass::LineEnd) =~= tail);
    }
    assert(markdown::rest_behind(s, b) == rest);
    let head = s.take(a) + feed + present + gap + line + feed;
    let body = head + rest;
    assert(head.last() == '\n');
    if b < s.len() {
        assert(body.last() == s.last());
    } else {
        assert(body =~= head);
    }
    if text::finishes(s, feed) {
        assert(s.last() == s.subrange(s.len() - 1, s.len() as int)[0]);
        assert(body.subrange(body.len() - 1, body.len() as int) =~= feed);
    }
}

proof fn lemma_words(text: Seq<char>, words: Seq<char>)
    requires
        characters::strips_space(text, words),
    ensures
        text::trim(text) == words,
        text::is_blank(text) <==> words.len() == 0,
{
    let drop = |c: char| text::is_space(c);
    characters::trimming_strips(text);
    characters::strips_to_one(text, words, text::trim(text), drop);
    let (from, to) = choose|from: int, to: int| characters::strips_to(text, words, drop, from, to);
    if from < to {
        assert(!text::is_space(text[from]));
    } else {
        assert forall|i: int| 0 <= i < text.len() implies text::is_space(#[trigger] text[i]) by {
            assert(drop(text[i]));
        }
    }
}

/// An item can be added to a section by its title, where no other section has it, and where the content
/// of the section itself has nothing in common with the section of the comments. It comes as an open
/// item on a line of its own behind that content, which is kept without the line endings around it, and
/// all before and behind is kept.
pub proof fn items_can_be_added(
    s: Seq<char>,
    section: Seq<char>,
    wanted: Seq<char>,
    text: Seq<char>,
    words: Seq<char>,
    i: int,
)
    requires
        s.len() <= usize::MAX,
        characters::strips_space(section, wanted),
        sectioning::is_only(markdown::sections_in(s), wanted, i),
        characters::strips_space(text, words),
        words.len() > 0,
        sectioning::is_clear(
            s,
            markdown::sections_in(s)[i].content_start as int,
            adding::direct_end(s, i),
        ),
        adding::direct_end(s, i) < s.len() ==> s[adding::direct_end(s, i)] != '\r',
    ensures
        markdown::item_added(s, section, text) is Ok,
        exists|present: Seq<char>, gap: Seq<char>| #[trigger]
            is_added(
                s,
                markdown::item_added(s, section, text)->Ok_0,
                markdown::sections_in(s)[i].content_start as int,
                adding::direct_end(s, i),
                present,
                gap,
                words,
            ),
{
    let a = markdown::sections_in(s)[i].content_start as int;
    let b = adding::direct_end(s, i);
    sectioning::lemma_is_only(markdown::sections_in(s), section, wanted, i);
    lemma_words(text, words);
    let line = markdown::item_line(text);
    let changed = markdown::with_line(s, a, b, line);
    assert(markdown::item_added(s, section, text) == Ok::<Seq<char>, Failure>(changed));
    adding::lemma_direct(s, i);
    edits::lemma_section_parts(s, i);
    lemma_with_line(s, a, b, line);
    let present = text::trim_both(s.subrange(a, b), CharClass::LineEnd);
    let gap = markdown::item_gap(present);
    characters::trimming_strips(s.subrange(a, b));
    lemma_added_is(s, a, b, present, gap, words);
    assert(is_added(
        s,
        markdown::item_added(s, section, text)->Ok_0,
        a,
        b,
        present,
        gap,
        words,
    ));
}

proof fn lemma_added_is(
    s: Seq<char>,
    a: int,
    b: int,
    present: Seq<char>,
    gap: Seq<char>,
    words: Seq<char>,
)
    requires
        gap == markdown::item_gap(present),
    ensures
        ({
            let feed = seq!['\n'];
            let rest = if b < s.len() {
                feed + s.skip(b)
            } else {
                Seq::empty()
            };
            &&& present.len() == 0 ==> gap.len() == 0
            &&& present.len() > 0 ==> gap == feed || gap == feed + feed
            &&& s.take(a) + feed + present + gap + ("- [ ] "@ + words) + feed + rest == s.take(a)
                + feed + present + gap + seq!['-', ' ', '[', ' ', ']', ' '] + words + feed + rest
        }),
{
    let feed = seq!['\n'];
    reveal_strlit("\n");
    reveal_strlit("\n\n");
    reveal_strlit("- [ ] ");
    let mark = seq!['-', ' ', '[', ' ', ']', ' '];
    assert("\n"@ =~= feed);
    assert("\n\n"@ =~= feed + feed);
    assert("- [ ] "@ =~= mark);
    let head = s.take(a) + feed + present + gap;
    assert(head + (mark + words) =~= head + mark + words);
}

/// An item for a section that there is not makes the section, with the open item as its content. One
/// with no text is refused.
pub proof fn items_make_their_section(
    s: Seq<char>,
    section: Seq<char>,
    wanted: Seq<char>,
    text: Seq<char>,
    words: Seq<char>,
)
    requires
        characters::strips_space(section, wanted),
        sectioning::is_free(markdown::sections_in(s), wanted),
        characters::strips_space(text, words),
    ensures
        words.len() == 0 ==> markdown::item_added(s, section, text) is Err,
        words.len() > 0 ==> markdown::item_added(s, section, text) == markdown::section_set(
            s,
            section,
            seq!['-', ' ', '[', ' ', ']', ' '] + words,
        ),
{
    sectioning::lemma_is_free(markdown::sections_in(s), section, wanted);
    lemma_words(text, words);
    reveal_strlit("- [ ] ");
    assert("- [ ] "@ =~= seq!['-', ' ', '[', ' ', ']', ' ']);
}

/// The progress of a card counts its items, and how many of them are checked.
pub proof fn progress_counts_the_checked_items(body: Seq<char>)
    ensures
        model::progress(body) == (
            markdown::items_in(body).filter(|item: ItemView| item.checked).len(),
            markdown::items_in(body).len(),
        ),
{
    let items = markdown::items_in(body);
    lemma_checked(items, items.len());
    assert(items.take(items.len() as int) =~= items);
}

proof fn lemma_checked(items: Seq<ItemView>, n: nat)
    requires
        n <= items.len(),
    ensures
        model::count_checked(items, n) == items.take(n as int).filter(
            |item: ItemView| item.checked,
        ).len(),
    decreases n,
{
    let checked = |item: ItemView| item.checked;
    reveal(Seq::filter);
    if n > 0 {
        lemma_checked(items, (n - 1) as nat);
        let first = items.take(n as int);
        assert(first.drop_last() =~= items.take(n - 1));
        assert(first.last() == items[n - 1]);
    } else {
        assert(items.take(0).filter(checked).len() == 0);
    }
}

/// A body without what stands from one index to a second one.
pub open spec fn cut(s: Seq<char>, a: int, b: int) -> Seq<char> {
    s.take(a) + s.skip(b)
}

/// Whether the Markdown parser reads a body without a line as before outside that line: it reports
/// headings in the same lines, and the same task-list markers.
pub open spec fn is_read_without(s: Seq<char>, a: int, b: int) -> bool {
    let changed = cut(s, a, b);
    &&& edits::read_around(s, changed, a, b)
    &&& adding::takes_alike(s, changed, 0, a, 0)
    &&& adding::takes_alike(s, changed, b, s.len() as int, a - b)
}

/// Taking out a line that is no heading keeps the headings, those behind it at their new places.
proof fn lemma_cut(s: Seq<char>, a: int, b: int)
    requires
        s.len() <= usize::MAX,
        is_whole_line(s, a, b),
        b == text::line_end(s, a),
        markdown::line_heading(s, markdown::marks(s).headings, a) is None,
        is_read_without(s, a, b),
    ensures
        ({
            let changed = cut(s, a, b);
            let h = properties::headings_in(s);
            let g = properties::headings_in(changed);
            let k = edits::first_part(s, a, a).len() as int;
            &&& edits::is_edit(s, changed, a, a, b)
            &&& edits::mid_part(s, a, a, b).len() == 0
            &&& h.len() == g.len()
            &&& 0 <= k <= h.len()
            &&& h == edits::first_part(s, a, a) + edits::last_part(s, b)
            &&& forall|j: int|
                0 <= j < k ==> (#[trigger] g[j]) == h[j] && h[j].start < a && h[j].content_start
                    <= a
            &&& forall|j: int|
                k <= j < h.len() ==> (#[trigger] g[j]) == edits::moved(h[j], a - b) && h[j].start
                    >= b
        }),
{
    let changed = cut(s, a, b);
    let spans = markdown::marks(s).headings;
    let h = properties::headings_in(s);
    let g = properties::headings_in(changed);
    assert(changed.take(a) =~= s.take(a));
    assert(changed.skip(a) =~= s.skip(b));
    if a > 0 && a < changed.len() {
        assert(changed[a - 1] == s[a - 1]);
    }
    assert(edits::is_line_break(changed, a)) by {
        if a > 0 {
            assert(changed[a - 1] == s[a - 1]);
        }
    }
    edits::lemma_edit(s, changed, a, a, b);
    let first = edits::first_part(s, a, a);
    let again = edits::first_part(changed, a, a);
    let last = edits::last_part(s, b);
    let none = Seq::<outline::HeadingView>::empty();
    assert(edits::headings_between(s, spans, b, b) =~= none);
    assert(edits::mid_part(s, a, a, b) =~= none);
    assert(edits::mid_part(changed, a, a, a) =~= none);
    assert(first + none + last =~= first + last);
    assert(again + none + edits::all_moved(last, a - b) =~= again + edits::all_moved(last, a - b));
    edits::lemma_between(s, spans, b, s.len() as int);
    let k = first.len() as int;
    assert forall|j: int| 0 <= j < k implies (#[trigger] g[j]) == h[j] && h[j].start < a
        && h[j].content_start <= a by {
        assert(h[j] == first[j] && g[j] == again[j]);
        assert(edits::is_kept(first[j], again[j]));
    }
    assert forall|j: int| k <= j < h.len() implies (#[trigger] g[j]) == edits::moved(h[j], a - b)
        && h[j].start >= b by {
        assert(h[j] == last[j - k]);
        assert(edits::is_heading_of(s, spans, b, s.len() as int, last[j - k]));
    }
}

/// What the sections of a body without a line are.
proof fn lemma_cut_section(s: Seq<char>, a: int, b: int, j: int)
    requires
        s.len() <= usize::MAX,
        is_whole_line(s, a, b),
        b == text::line_end(s, a),
        markdown::line_heading(s, markdown::marks(s).headings, a) is None,
        is_read_without(s, a, b),
        0 <= j < markdown::sections_in(s).len(),
    ensures
        ({
            let sections = markdown::sections_in(s);
            let others = markdown::sections_in(cut(s, a, b));
            &&& others.len() == sections.len()
            &&& others[j].title == sections[j].title
            &&& others[j].level == sections[j].level
            &&& forall|at: int|
                at < a ==> #[trigger] outline::holds(sections[j], at) == outline::holds(
                    others[j],
                    at,
                )
            &&& forall|at: int|
                b <= at ==> #[trigger] outline::holds(sections[j], at) == outline::holds(
                    others[j],
                    at + (a - b),
                )
            &&& !outline::holds(sections[j], a) ==> edits::same_section(
                s,
                sections[j],
                cut(s, a, b),
                others[j],
            )
        }),
{
    let changed = cut(s, a, b);
    let h = properties::headings_in(s);
    let g = properties::headings_in(changed);
    let k = edits::first_part(s, a, a).len() as int;
    let level = h[j].level;
    lemma_cut(s, a, b);
    properties::lemma_headings_in(s);
    let m = edits::find_peer(h, j + 1, level);
    assert forall|n: int| j + 1 <= n < m implies (#[trigger] g[n]).level > level by {
        assert(h[n].level > level);
    }
    assert(edits::is_peer(g, j + 1, level, m)) by {
        if m < g.len() {
            assert(g[m].level == h[m].level);
        }
    }
    edits::lemma_peer(h, j + 1, level, s.len() as usize, m);
    edits::lemma_peer(g, j + 1, level, changed.len() as usize, m);
    assert(g[j].level == level);
    if m < h.len() {
        assert(m < k ==> g[m] == h[m] && h[m].start < a);
        assert(m >= k ==> g[m] == edits::moved(h[m], a - b) && h[m].start >= b);
    }
    if j < k {
        assert(g[j] == h[j]);
        if m < k {
            edits::lemma_before(s, changed, a, a, b, j, m);
        }
    } else {
        assert(g[j] == edits::moved(h[j], a - b));
        assert(h[j].start < h[j].content_start);
        edits::lemma_behind(s, changed, a, a, b, j - k);
    }
}

/// The section of what stands outside a line is the same where the line is taken out.
proof fn lemma_cut_place(s: Seq<char>, a: int, b: int, at: int, new: int)
    requires
        s.len() <= usize::MAX,
        is_whole_line(s, a, b),
        b == text::line_end(s, a),
        markdown::line_heading(s, markdown::marks(s).headings, a) is None,
        is_read_without(s, a, b),
        at < a && new == at || b <= at && new == at + (a - b),
    ensures
        ({
            let sections = markdown::sections_in(s);
            let others = markdown::sections_in(cut(s, a, b));
            let held = outline::deepest(sections, at, sections.len());
            &&& outline::deepest(others, new, others.len()) == held
            &&& held matches Some(k) ==> 0 <= k < sections.len() && others[k].title
                == sections[k].title
        }),
{
    let sections = markdown::sections_in(s);
    let others = markdown::sections_in(cut(s, a, b));
    lemma_cut(s, a, b);
    assert forall|j: int| 0 <= j < sections.len() implies (#[trigger] others[j]).level
        == sections[j].level && outline::holds(others[j], new) == outline::holds(
        sections[j],
        at,
    ) by {
        lemma_cut_section(s, a, b, j);
        assert(outline::holds(sections[j], at) == outline::holds(sections[j], at));
    }
    adding::lemma_same_deepest(sections, others, at, new, sections.len());
    outline::lemma_deepest(sections, at, sections.len());
    if let Some(k) = outline::deepest(sections, at, sections.len()) {
        lemma_cut_section(s, a, b, k);
    }
}

/// The items of a body without the line of one.
proof fn lemma_cut_boxes(s: Seq<char>, i: int)
    requires
        s.len() <= usize::MAX,
        0 <= i < markdown::items_in(s).len(),
        ({
            let item = markdown::items_in(s)[i];
            is_read_without(s, item.line.start as int, item.line.end as int)
        }),
    ensures
        ({
            let a = markdown::items_in(s)[i].line.start as int;
            let b = markdown::items_in(s)[i].line.end as int;
            let changed = cut(s, a, b);
            let boxes = adding::boxes_of(markdown::tasks_in(s, markdown::marks(s)));
            let again = adding::boxes_of(markdown::tasks_in(changed, markdown::marks(changed)));
            &&& boxes.len() == markdown::items_in(s).len()
            &&& again.len() == markdown::items_in(changed).len()
            &&& again.len() == boxes.len() - 1
            &&& forall|k: int| 0 <= k < i ==> (#[trigger] again[k]) == boxes[k] && boxes[k].start < a
            &&& forall|k: int|
                i < k < boxes.len() ==> (#[trigger] boxes[k]).start >= b && again[k - 1].start
                    == boxes[k].start + (a - b) && again[k - 1].text == boxes[k].text
                    && again[k - 1].checked == boxes[k].checked
            &&& markdown::line_heading(s, markdown::marks(s).headings, a) is None
        }),
{
    let a = markdown::items_in(s)[i].line.start as int;
    let b = markdown::items_in(s)[i].line.end as int;
    let changed = cut(s, a, b);
    let len = s.len() as int;
    let boxes = adding::boxes_of(markdown::tasks_in(s, markdown::marks(s)));
    let again = adding::boxes_of(markdown::tasks_in(changed, markdown::marks(changed)));
    let none = Seq::<BoxView>::empty();
    lemma_item_line(s, i);
    properties::items_are_counted(s);
    adding::lemma_boxes(s, 0, 1, Seq::empty());
    adding::lemma_boxes(changed, 0, 1, Seq::empty());
    assert(adding::boxes_of(Seq::empty()) =~= none);
    assert(none + adding::boxes_between(s, 0, len) =~= adding::boxes_between(s, 0, len));
    assert(none + adding::boxes_between(changed, 0, changed.len() as int)
        =~= adding::boxes_between(changed, 0, changed.len() as int));
    assert(edits::is_line_break(s, a) && edits::is_line_break(s, b));
    assert(changed.take(a) =~= s.take(a));
    assert(changed.skip(a) =~= s.skip(b));
    assert(edits::is_line_break(changed, a)) by {
        if a > 0 {
            assert(changed[a - 1] == s[a - 1]);
        }
    }
    adding::lemma_split(s, 0, a, len);
    adding::lemma_split(s, a, b, len);
    adding::lemma_split(changed, 0, a, changed.len() as int);
    adding::lemma_same_prefix(s, changed, 0, a);
    adding::lemma_same_suffix(s, changed, b, b);
    let first = adding::boxes_between(s, 0, a);
    let own = adding::boxes_between(s, a, b);
    let last = adding::boxes_between(s, b, len);
    assert(adding::boxes_between(s, b, b) =~= none);
    adding::lemma_between(s, 0, a);
    adding::lemma_between(s, b, len);
    let n = first.len() as int;
    assert(boxes == first + (own + last));
    assert(again == first + adding::all_moved(last, a - b));
    assert(boxes.len() == markdown::items_in(s).len());
    assert(again.len() == markdown::items_in(changed).len());
    assert(own =~= match adding::line_box(s, a) {
        Some(found) => seq![found],
        None => none,
    });
    assert(boxes[i].start == a);
    if i < n {
        assert(boxes[i] == first[i]);
    } else if own.len() == 0 {
        assert(boxes[i] == last[i - n]);
    } else if i > n {
        assert(boxes[i] == last[i - n - 1]);
    }
    assert(i == n && own.len() == 1);
    if markdown::line_heading(s, markdown::marks(s).headings, a) is Some {
        adding::lemma_heading_is_no_box(s, a);
    }
    assert forall|k: int| 0 <= k < i implies (#[trigger] again[k]) == boxes[k] && boxes[k].start
        < a by {
        assert(boxes[k] == first[k] && again[k] == first[k]);
    }
    assert forall|k: int| i < k < boxes.len() implies (#[trigger] boxes[k]).start >= b && again[k
        - 1].start == boxes[k].start + (a - b) && again[k - 1].text == boxes[k].text && again[k
        - 1].checked == boxes[k].checked by {
        assert(boxes[k] == last[k - n - 1]);
        assert(again[k - 1] == adding::all_moved(last, a - b)[k - n - 1]);
    }
}

/// Where the Markdown parser reads the rest of a body as before, removing an item leaves the others:
/// they have their texts and states and are in sections of the same titles, in their order. The sections
/// keep their titles and levels, and those that do not hold the line read as before.
pub proof fn removing_an_item_keeps_the_others(s: Seq<char>, number: nat, j: int)
    requires
        source::fits(s),
        1 <= number <= markdown::items_in(s).len(),
        ({
            let item = markdown::items_in(s)[number - 1];
            is_read_without(s, item.line.start as int, item.line.end as int)
        }),
        0 <= j < markdown::sections_in(s).len() || j == -1,
    ensures
        ({
            let changed = markdown::item_removed(s, markdown::item_numbered(s, number))->Ok_0;
            let items = markdown::items_in(s);
            let others = markdown::items_in(changed);
            let sections = markdown::sections_in(s);
            let start = items[number - 1].line.start as int;
            &&& others.len() == items.len() - 1
            &&& forall|k: int|
                0 <= k < number - 1 ==> adding::same_item(#[trigger] items[k], others[k])
            &&& forall|k: int|
                number <= k < items.len() ==> adding::same_item(#[trigger] items[k], others[k - 1])
            &&& markdown::sections_in(changed).len() == sections.len()
            &&& j >= 0 ==> markdown::sections_in(changed)[j].title == sections[j].title
                && markdown::sections_in(changed)[j].level == sections[j].level
            &&& j >= 0 && !(sections[j].content_start <= start < sections[j].end)
                ==> edits::same_section(
                s,
                sections[j],
                changed,
                markdown::sections_in(changed)[j],
            )
        }),
{
    let i = number - 1;
    let items = markdown::items_in(s);
    let a = items[i].line.start as int;
    let b = items[i].line.end as int;
    let changed = cut(s, a, b);
    let others = markdown::items_in(changed);
    let boxes = adding::boxes_of(markdown::tasks_in(s, markdown::marks(s)));
    let again = adding::boxes_of(markdown::tasks_in(changed, markdown::marks(changed)));
    document::lemma_fits_len(s);
    properties::items_are_found_by_number(s, number);
    assert(markdown::item_removed(s, markdown::item_numbered(s, number))->Ok_0 == changed);
    lemma_item_line(s, i);
    lemma_cut_boxes(s, i);
    lemma_cut(s, a, b);
    if j >= 0 {
        lemma_cut_section(s, a, b, j);
    }
    assert forall|k: int| 0 <= k < i implies adding::same_item(#[trigger] items[k], others[k]) by {
        assert(again[k] == boxes[k]);
        adding::lemma_item(s, k);
        adding::lemma_item(changed, k);
        lemma_cut_place(s, a, b, boxes[k].start, boxes[k].start);
    }
    assert forall|k: int| number <= k < items.len() implies adding::same_item(
        #[trigger] items[k],
        others[k - 1],
    ) by {
        assert(boxes[k].start >= b);
        adding::lemma_item(s, k);
        adding::lemma_item(changed, k - 1);
        lemma_cut_place(s, a, b, boxes[k].start, again[k - 1].start);
    }
}

} // verus!
