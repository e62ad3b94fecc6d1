//! What is read of the checklist items of a body after one was added.

use crate::comments;
use crate::edits;
use crate::markdown;
use crate::markdown::{ItemView, TaskView};
use crate::outline;
use crate::outline::RegionView;
use crate::properties;
use crate::text;
use crate::text::CharClass;
use vstd::prelude::*;

verus! {

/// A checklist item without its place in the list.
#[verifier::ext_equal]
pub struct BoxView {
    /// Where its line begins.
    pub start: int,
    pub checked: bool,
    pub text: Seq<char>,
}

/// Whether the Markdown parser reports a task-list marker for the checkbox whose state is at an index.
pub open spec fn takes(s: Seq<char>, at: int) -> bool {
    markdown::is_task(s, markdown::marks(s).tasks, markdown::marks(s).protected, at)
}

/// The item in the line that begins at an index.
pub open spec fn line_box(s: Seq<char>, at: int) -> Option<BoxView> {
    let line = text::line_at(s, at);
    match (
        markdown::checkbox(text::trim_start(line, CharClass::Space)),
        markdown::state_index(line, at),
    ) {
        (Some(found), Some(state)) => if takes(s, state) {
            Some(BoxView { start: at, checked: found.checked, text: found.text })
        } else {
            None
        },
        _ => None,
    }
}

/// The items of the lines that begin from an index on and before another one.
pub open spec fn boxes_between(s: Seq<char>, from: int, to: int) -> Seq<BoxView>
    decreases s.len() - from,
{
    if from < 0 || from >= to || from >= s.len() {
        Seq::empty()
    } else {
        let end = text::line_end(s, from);
        proof {
            text::lemma_line_end(s, from);
        }
        let rest = boxes_between(s, end, to);
        match line_box(s, from) {
            Some(found) => seq![found] + rest,
            None => rest,
        }
    }
}

/// An item without its place in the list.
pub open spec fn box_of(task: TaskView) -> BoxView {
    BoxView { start: task.line.start as int, checked: task.checked, text: task.text }
}

/// Items without their places in the list.
pub open spec fn boxes_of(tasks: Seq<TaskView>) -> Seq<BoxView> {
    tasks.map_values(|t: TaskView| box_of(t))
}

pub proof fn lemma_boxes(s: Seq<char>, at: int, number: nat, read: Seq<TaskView>)
    requires
        0 <= at <= s.len() <= usize::MAX,
    ensures
        boxes_of(markdown::tasks_from(s, markdown::marks(s), at, number, read)) == boxes_of(read)
            + boxes_between(s, at, s.len() as int),
    decreases s.len() - at,
{
    if at < s.len() {
        let end = text::line_end(s, at);
        text::lemma_line_end(s, at);
        let rest = boxes_between(s, end, s.len() as int);
        match markdown::line_task(s, markdown::marks(s), at, number) {
            Some(task) => {
                lemma_boxes(s, end, number + 1, read.push(task));
                assert(boxes_of(read.push(task)) =~= boxes_of(read).push(box_of(task)));
                assert(boxes_of(read).push(box_of(task)) + rest =~= boxes_of(read) + (seq![
                    box_of(task),
                ] + rest));
            },
            None => {
                lemma_boxes(s, end, number + 1, read);
            },
        }
    } else {
        assert(boxes_of(read) + Seq::<BoxView>::empty() =~= boxes_of(read));
    }
}

pub proof fn lemma_split(s: Seq<char>, from: int, mid: int, to: int)
    requires
        0 <= from <= mid <= to,
        edits::is_line_break(s, mid),
    ensures
        boxes_between(s, from, to) == boxes_between(s, from, mid) + boxes_between(s, mid, to),
    decreases mid - from,
{
    if from < mid {
        let end = text::line_end(s, from);
        edits::lemma_line_within(s, from, mid);
        lemma_split(s, end, mid, to);
        let rest = boxes_between(s, mid, to);
        let first = boxes_between(s, end, mid);
        if let Some(found) = line_box(s, from) {
            assert(seq![found] + (first + rest) =~= (seq![found] + first) + rest);
        }
    } else {
        assert(Seq::<BoxView>::empty() + boxes_between(s, mid, to) =~= boxes_between(s, mid, to));
    }
}

/// The items between two indices stand there.
pub proof fn lemma_between(s: Seq<char>, from: int, to: int)
    requires
        0 <= from,
    ensures
        forall|i: int|
            0 <= i < boxes_between(s, from, to).len() ==> from <= (#[trigger] boxes_between(
                s,
                from,
                to,
            )[i]).start < to,
    decreases s.len() - from,
{
    if from < to && from < s.len() {
        let end = text::line_end(s, from);
        text::lemma_line_end(s, from);
        lemma_between(s, end, to);
        let all = boxes_between(s, from, to);
        let rest = boxes_between(s, end, to);
        assert forall|i: int| 0 <= i < all.len() implies from <= (#[trigger] all[i]).start < to by {
            if line_box(s, from) is Some {
                if i > 0 {
                    assert(all[i] == rest[i - 1]);
                }
            } else {
                assert(all[i] == rest[i]);
            }
        }
    }
}

/// A line of white space is no item.
proof fn lemma_blank_line(s: Seq<char>, at: int)
    requires
        0 <= at < s.len(),
        edits::all_in(s.subrange(at, text::line_end(s, at)), CharClass::LineEnd),
    ensures
        line_box(s, at) is None,
{
    let line = s.subrange(at, text::line_end(s, at));
    let held = text::line_text(line);
    assert forall|i: int| 0 <= i < held.len() implies text::in_class(
        CharClass::Space,
        #[trigger] held[i],
    ) by {
        assert(held[i] == line[i]);
    }
    text::lemma_lead(held, CharClass::Space, held.len() as int);
    assert(text::trim_start(held, CharClass::Space) =~= Seq::<char>::empty());
    assert(text::lead(Seq::<char>::empty(), CharClass::Digit) == 0);
    assert(markdown::marker_end(Seq::<char>::empty()) is None);
}

/// Lines of nothing but line endings hold no item.
proof fn lemma_no_boxes(s: Seq<char>, from: int, to: int)
    requires
        0 <= from <= to <= s.len(),
        edits::is_line_break(s, to),
        edits::all_in(s.subrange(from, to), CharClass::LineEnd),
    ensures
        boxes_between(s, from, to) == Seq::<BoxView>::empty(),
    decreases to - from,
{
    if from < to {
        let end = text::line_end(s, from);
        edits::lemma_line_within(s, from, to);
        let line = s.subrange(from, end);
        assert forall|i: int| 0 <= i < line.len() implies text::in_class(
            CharClass::LineEnd,
            #[trigger] line[i],
        ) by {
            assert(line[i] == s.subrange(from, to)[i]);
        }
        lemma_blank_line(s, from);
        assert forall|i: int| 0 <= i < s.subrange(end, to).len() implies text::in_class(
            CharClass::LineEnd,
            #[trigger] s.subrange(end, to)[i],
        ) by {
            assert(s.subrange(end, to)[i] == s.subrange(from, to)[i + (end - from)]);
        }
        lemma_no_boxes(s, end, to);
    }
}

/// A line with a heading is no item.
pub proof fn lemma_heading_is_no_box(s: Seq<char>, at: int)
    requires
        outline::atx(text::trim_start(text::line_at(s, at), CharClass::Space)) is Some,
    ensures
        line_box(s, at) is None,
{
    let line = text::trim_start(text::line_at(s, at), CharClass::Space);
    text::lemma_lead_is(line, CharClass::Hash);
    assert(line[0] == '#');
    text::lemma_lead(line, CharClass::Digit, 0);
    assert(markdown::marker_end(line) is None);
}

/// Whether the Markdown parser reports the same task-list markers for ranges of two texts.
pub open spec fn takes_alike(
    s: Seq<char>,
    changed: Seq<char>,
    from: int,
    to: int,
    by: int,
) -> bool {
    forall|at: int| from <= at < to ==> #[trigger] takes(s, at) == takes(changed, at + by)
}

/// Items at other places.
pub open spec fn all_moved(boxes: Seq<BoxView>, by: int) -> Seq<BoxView> {
    Seq::new(boxes.len(), |i: int| BoxView { start: boxes[i].start + by, ..boxes[i] })
}

/// Whether a line of one text is that of another one, at another place.
spec fn same_line(s: Seq<char>, changed: Seq<char>, at: int, by: int) -> bool {
    text::line_at(changed, at + by) == text::line_at(s, at)
}

/// Equal lines hold equal items.
proof fn lemma_same_box(s: Seq<char>, changed: Seq<char>, at: int, to: int, by: int)
    requires
        0 <= at < s.len(),
        same_line(s, changed, at, by),
        takes_alike(s, changed, at, to, by),
        text::line_at(s, at).len() <= to - at,
    ensures
        line_box(changed, at + by) == match line_box(s, at) {
            Some(found) => Some(BoxView { start: found.start + by, ..found }),
            None => None,
        },
{
    let line = text::line_at(s, at);
    let trimmed = text::trim_start(line, CharClass::Space);
    text::lemma_lead_is(line, CharClass::Space);
    markdown::lemma_checkbox(trimmed);
    if let Some(state) = markdown::state_index(line, at) {
        assert(at <= state < to);
        assert(takes(s, state) == takes(changed, state + by));
    }
}

/// A line in a range of two texts is the same in both.
proof fn lemma_range_line(s: Seq<char>, changed: Seq<char>, x: int, to: int, by: int, at: int)
    requires
        0 <= x <= at < to <= s.len(),
        0 <= x + by,
        to + by <= changed.len(),
        changed.subrange(x + by, to + by) == s.subrange(x, to),
        comments::ends_line(s.skip(to)),
        comments::ends_line(changed.skip(to + by)),
        !text::in_class(CharClass::LineEnd, s[to - 1]),
    ensures
        same_line(s, changed, at, by),
        text::line_at(s, at).len() <= to - at,
        at < text::line_end(s, at),
        text::line_end(s, at) < to && text::line_end(changed, at + by) == text::line_end(s, at) + by
            || text::line_end(s, at) >= to && text::line_end(changed, at + by) >= to + by,
{
    assert forall|i: int| x <= i < to implies #[trigger] s[i] == changed[i + by] by {
        assert(s.subrange(x, to)[i - x] == s[i]);
        assert(changed.subrange(x + by, to + by)[i - x] == changed[i + by]);
    }
    let end = text::line_end(s, at);
    text::lemma_line_end(s, at);
    let feed = text::next_index(s, '\n', at);
    text::lemma_next_index_is(s, '\n', at);
    if feed < to {
        assert forall|i: int| at + by <= i < feed + by implies #[trigger] changed[i] != '\n' by {
            assert(s[i - by] == changed[i]);
        }
        assert(s[feed] == changed[feed + by]);
        text::lemma_next_index(changed, '\n', at + by, feed + by);
        assert(changed.subrange(at + by, end + by) =~= s.subrange(at, end));
        if feed + 1 == to {
            assert(s[to - 1] == '\n');
        }
        lemma_line_fits(s, at, to);
    } else {
        lemma_last_line(s, at, to);
        assert forall|i: int| at + by <= i < to + by implies #[trigger] changed[i] != '\n' by {
            assert(s[i - by] == changed[i]);
        }
        assert(s[to - 1] == changed[to - 1 + by]);
        lemma_last_line(changed, at + by, to + by);
        assert(changed.subrange(at + by, to + by) =~= s.subrange(at, to)) by {
            assert forall|i: int| 0 <= i < to - at implies changed.subrange(
                at + by,
                to + by,
            )[i] == s.subrange(at, to)[i] by {
                assert(s[at + i] == changed[at + i + by]);
            }
        }
    }
}

/// The items in a range of lines of two texts, the last of which is closed or ends the text.
proof fn lemma_same_boxes(s: Seq<char>, changed: Seq<char>, x: int, to: int, by: int, at: int)
    requires
        0 <= x <= at <= to <= s.len(),
        0 <= x + by,
        to + by <= changed.len(),
        changed.subrange(x + by, to + by) == s.subrange(x, to),
        comments::ends_line(s.skip(to)),
        comments::ends_line(changed.skip(to + by)),
        to > x ==> !text::in_class(CharClass::LineEnd, s[to - 1]),
        takes_alike(s, changed, x, to, by),
    ensures
        boxes_between(changed, at + by, to + by) == all_moved(boxes_between(s, at, to), by),
    decreases to - at,
{
    let none = Seq::<BoxView>::empty();
    assert(all_moved(none, by) =~= none);
    if at < to {
        let end = text::line_end(s, at);
        let other = text::line_end(changed, at + by);
        lemma_range_line(s, changed, x, to, by, at);
        lemma_same_box(s, changed, at, to, by);
        let rest = boxes_between(s, end, to);
        let moved = boxes_between(changed, other, to + by);
        if end < to {
            lemma_same_boxes(s, changed, x, to, by, end);
        } else {
            assert(rest =~= none);
            assert(moved =~= none);
        }
        if let Some(found) = line_box(s, at) {
            let next = BoxView { start: found.start + by, ..found };
            assert(all_moved(seq![found] + rest, by) =~= seq![next] + all_moved(rest, by));
        }
    }
}

/// What a line holds is no longer than the line.
proof fn lemma_line_fits(s: Seq<char>, at: int, to: int)
    requires
        0 <= at < s.len(),
        text::line_end(s, at) <= to,
    ensures
        text::line_at(s, at).len() <= to - at,
{
    text::lemma_line_end(s, at);
}

/// A line that ends where a text does holds all of it.
proof fn lemma_last_line(s: Seq<char>, at: int, to: int)
    requires
        0 <= at < to <= s.len(),
        forall|i: int| at <= i < to ==> #[trigger] s[i] != '\n',
        !text::in_class(CharClass::LineEnd, s[to - 1]),
        comments::ends_line(s.skip(to)),
    ensures
        text::line_at(s, at) == s.subrange(at, to),
        text::line_end(s, at) >= to,
        edits::all_in(s.subrange(to, text::line_end(s, at)), CharClass::LineEnd),
{
    let after = s.skip(to);
    let held = s.subrange(at, to);
    let n = held.len() as int;
    if after.len() == 0 {
        text::lemma_next_index(s, '\n', at, to);
        let line = s.subrange(at, text::line_end(s, at));
        assert(line =~= held);
        properties::lemma_finishes_one(line);
        properties::lemma_finishes_two(line);
        assert(line.last() == s[to - 1]);
    } else if after[0] == '\n' {
        assert(s[to] == '\n');
        text::lemma_next_index(s, '\n', at, to);
        let line = s.subrange(at, text::line_end(s, at));
        assert(line =~= held.push('\n'));
        properties::lemma_finishes_one(line);
        properties::lemma_finishes_two(line);
        assert(line[n - 1] == s[to - 1]);
        assert(line.take(n) =~= held);
    } else {
        assert(s[to] == '\r' && s[to + 1] == '\n');
        text::lemma_next_index(s, '\n', at, to + 1);
        let line = s.subrange(at, text::line_end(s, at));
        assert(line =~= held.push('\r').push('\n'));
        properties::lemma_finishes_two(line);
        assert(line.take(n) =~= held);
    }
}

pub proof fn lemma_same_prefix(s: Seq<char>, changed: Seq<char>, from: int, to: int)
    requires
        0 <= from <= to <= s.len(),
        to <= changed.len(),
        changed.take(to) == s.take(to),
        to == 0 || s[to - 1] == '\n',
        takes_alike(s, changed, 0, to, 0),
    ensures
        boxes_between(changed, from, to) == boxes_between(s, from, to),
    decreases to - from,
{
    if from < to {
        assert forall|i: int| 0 <= i < to implies #[trigger] changed[i] == s[i] by {
            assert(changed.take(to)[i] == changed[i]);
            assert(s.take(to)[i] == s[i]);
        }
        let end = text::line_end(s, from);
        edits::lemma_line_within(s, from, to);
        text::lemma_line_end(s, from);
        assert(s[end - 1] == '\n');
        assert forall|i: int| from <= i < end - 1 implies #[trigger] changed[i] != '\n' by {
            assert(s[i] == changed[i]);
        }
        text::lemma_next_index(changed, '\n', from, end - 1);
        assert(changed.subrange(from, end) =~= s.subrange(from, end));
        lemma_line_fits(s, from, to);
        lemma_same_box(s, changed, from, to, 0);
        lemma_same_prefix(s, changed, end, to);
    }
}

pub proof fn lemma_same_suffix(s: Seq<char>, changed: Seq<char>, start: int, from: int)
    requires
        0 <= start <= from <= s.len(),
        start + (changed.len() - s.len()) >= 0,
        changed.skip(start + (changed.len() - s.len())) == s.skip(start),
        takes_alike(s, changed, start, s.len() as int, changed.len() - s.len()),
    ensures
        boxes_between(changed, from + (changed.len() - s.len()), changed.len() as int)
            == all_moved(boxes_between(s, from, s.len() as int), changed.len() - s.len()),
    decreases s.len() - from,
{
    let by = changed.len() - s.len();
    if from < s.len() {
        let end = text::line_end(s, from);
        text::lemma_line_end(s, from);
        edits::lemma_line_moved(s, changed, start, from);
        lemma_line_fits(s, from, s.len() as int);
        lemma_same_box(s, changed, from, s.len() as int, by);
        lemma_same_suffix(s, changed, start, end);
        let rest = boxes_between(s, end, s.len() as int);
        if let Some(found) = line_box(s, from) {
            let next = BoxView { start: found.start + by, ..found };
            assert(all_moved(seq![found] + rest, by) =~= seq![next] + all_moved(rest, by));
        }
    } else {
        assert(all_moved(Seq::empty(), by) =~= Seq::<BoxView>::empty());
    }
}

/// Blank lines behind others hold no item.
proof fn lemma_then_blank(s: Seq<char>, at: int, to: int, end: int)
    requires
        0 <= at,
        0 <= to <= end <= s.len(),
        edits::is_line_break(s, end),
        edits::all_in(s.subrange(to, end), CharClass::LineEnd),
    ensures
        boxes_between(s, at, end) == boxes_between(s, at, to),
    decreases s.len() - at,
{
    if at < end {
        if at < to {
            text::lemma_line_end(s, at);
            lemma_then_blank(s, text::line_end(s, at), to, end);
        } else {
            assert forall|i: int| 0 <= i < s.subrange(at, end).len() implies text::in_class(
                CharClass::LineEnd,
                #[trigger] s.subrange(at, end)[i],
            ) by {
                assert(s.subrange(at, end)[i] == s.subrange(to, end)[at - to + i]);
            }
            lemma_no_boxes(s, at, end);
        }
    }
}

/// Where the content of a section itself ends.
pub open spec fn direct_end(s: Seq<char>, i: int) -> int {
    outline::direct_end(markdown::sections_in(s), markdown::sections_in(s)[i], 0) as int
}

/// The content of a section itself, without the line endings around it.
pub open spec fn direct_content(s: Seq<char>, i: int) -> Seq<char> {
    let start = markdown::sections_in(s)[i].content_start as int;
    text::trim_both(s.subrange(start, direct_end(s, i)), CharClass::LineEnd)
}

/// Where the content of a section itself begins, behind the line endings before it.
pub open spec fn direct_start(s: Seq<char>, i: int) -> int {
    let start = markdown::sections_in(s)[i].content_start as int;
    start + text::lead(s.subrange(start, direct_end(s, i)), CharClass::LineEnd)
}

/// Where the line of a new item begins.
pub open spec fn new_line(s: Seq<char>, i: int) -> int {
    let content = direct_content(s, i);
    markdown::sections_in(s)[i].content_start + 1 + content.len() + markdown::item_gap(content).len()
}

/// A body with a new item in a section.
#[verifier::opaque]
pub open spec fn with_item(s: Seq<char>, i: int, text: Seq<char>) -> Seq<char> {
    markdown::with_line(
        s,
        markdown::sections_in(s)[i].content_start as int,
        direct_end(s, i),
        markdown::item_line(text),
    )
}

/// Whether lone carriage returns do not blur where the content of a section itself begins and ends.
pub open spec fn is_set_off(s: Seq<char>, i: int) -> bool {
    let end = direct_end(s, i);
    let content = direct_content(s, i);
    &&& edits::is_line_break(s, direct_start(s, i))
    &&& content.len() > 0 ==> comments::ends_line(s.skip(direct_start(s, i) + content.len()))
    &&& end < s.len() ==> s[end] != '\r'
}

/// What the content of a section itself is.
pub proof fn lemma_direct(s: Seq<char>, i: int)
    requires
        s.len() <= usize::MAX,
        0 <= i < markdown::sections_in(s).len(),
    ensures
        ({
            let section = markdown::sections_in(s)[i];
            let a = section.content_start as int;
            let b = direct_end(s, i);
            let x = direct_start(s, i);
            let content = direct_content(s, i);
            &&& a <= x && x + content.len() <= b
            &&& a <= b <= section.end <= s.len()
            &&& edits::is_line_break(s, b)
            &&& b < s.len() ==> s[b] != '\n'
            &&& edits::mid_part(s, section.start as int, a, b).len() == 0
            &&& edits::all_in(s.subrange(a, x), CharClass::LineEnd)
            &&& edits::all_in(s.subrange(x + content.len(), b), CharClass::LineEnd)
            &&& s.subrange(x, x + content.len()) == content
            &&& content.len() > 0 ==> !text::in_class(CharClass::LineEnd, content[0])
                && !text::in_class(CharClass::LineEnd, content.last())
        }),
{
    let sections = markdown::sections_in(s);
    let section = sections[i];
    let a = section.content_start as int;
    let b = direct_end(s, i);
    edits::lemma_section_parts(s, i);
    properties::lemma_headings_in(s);
    lemma_first_child(s, i);
    let held = s.subrange(a, b);
    let first = text::trim_start(held, CharClass::LineEnd);
    let lead = text::lead(held, CharClass::LineEnd) as int;
    let content = direct_content(s, i);
    let x = direct_start(s, i);
    text::lemma_lead_is(held, CharClass::LineEnd);
    text::lemma_trail_is(first, CharClass::LineEnd);
    assert forall|k: int| 0 <= k < s.subrange(a, x).len() implies text::in_class(
        CharClass::LineEnd,
        #[trigger] s.subrange(a, x)[k],
    ) by {
        assert(s.subrange(a, x)[k] == held[k]);
    }
    let y = x + content.len();
    assert forall|k: int| 0 <= k < s.subrange(y, b).len() implies text::in_class(
        CharClass::LineEnd,
        #[trigger] s.subrange(y, b)[k],
    ) by {
        assert(s.subrange(y, b)[k] == first[content.len() + k]);
    }
    assert(s.subrange(x, y) =~= content);
    edits::lemma_ends_of_trimmed(held, CharClass::LineEnd);
}

/// No heading begins between the heading of a section and the end of its own content.
pub proof fn lemma_first_child(s: Seq<char>, i: int)
    requires
        s.len() <= usize::MAX,
        0 <= i < markdown::sections_in(s).len(),
    ensures
        ({
            let section = markdown::sections_in(s)[i];
            let a = section.content_start as int;
            let b = direct_end(s, i);
            &&& a <= b <= section.end <= s.len()
            &&& edits::is_line_break(s, b)
            &&& b < s.len() ==> s[b] != '\n'
            &&& edits::mid_part(s, section.start as int, a, b).len() == 0
        }),
{
    let sections = markdown::sections_in(s);
    let section = sections[i];
    let p = section.start as int;
    let a = section.content_start as int;
    let b = direct_end(s, i);
    let h = properties::headings_in(s);
    let spans = markdown::marks(s).headings;
    edits::lemma_section_parts(s, i);
    properties::lemma_headings_in(s);
    let n = i + 1 + edits::mid_part(s, p, a, section.end as int).len();
    assert forall|k: int| 0 <= k <= i implies !outline::is_child(
        #[trigger] sections[k],
        section,
    ) by {
        assert(h[k].start <= h[i].start);
    }
    edits::lemma_peer(h, i + 1, section.level, s.len() as usize, n);
    if n > i + 1 {
        assert(h[i + 1].level > section.level);
        assert(h[i].content_start <= h[i + 1].start);
        let mid = edits::mid_part(s, p, a, section.end as int);
        edits::lemma_between(s, spans, a, section.end as int);
        assert(h[i + 1] == mid[0]);
        assert(edits::is_heading_of(s, spans, a, section.end as int, mid[0]));
        assert(outline::is_child(sections[i + 1], section));
        lemma_child_found(sections, section, 0, i + 1);
        assert(b == h[i + 1].start);
        assert(properties::is_heading(s, spans, h[i + 1]));
        properties::lemma_heading_line(s, spans, h[i + 1]);
    } else {
        assert forall|k: int| i < k < sections.len() implies !outline::is_child(
            #[trigger] sections[k],
            section,
        ) by {
            if n < h.len() && k > n {
                assert(h[n].start < h[k].start);
            }
        }
        lemma_no_child(sections, section, 0);
        assert(b == section.end);
        if b < s.len() {
            edits::lemma_next_heading(s, i);
        }
    }
    let within = edits::mid_part(s, p, a, b);
    edits::lemma_between(s, spans, a, b);
    if within.len() > 0 {
        assert(edits::is_heading_of(s, spans, a, b, within[0]));
        edits::lemma_split(s, spans, a, b, section.end as int);
        assert(edits::mid_part(s, p, a, section.end as int)[0] == within[0]);
        assert(h[i + 1] == within[0]);
    }
}

pub proof fn lemma_child_found(
    sections: Seq<RegionView>,
    parent: RegionView,
    from: int,
    at: int,
)
    requires
        0 <= from <= at < sections.len(),
        outline::is_child(sections[at], parent),
        forall|k: int| from <= k < at ==> !outline::is_child(#[trigger] sections[k], parent),
    ensures
        outline::direct_end(sections, parent, from) == sections[at].start,
    decreases at - from,
{
    if from < at {
        lemma_child_found(sections, parent, from + 1, at);
    }
}

pub proof fn lemma_no_child(sections: Seq<RegionView>, parent: RegionView, from: int)
    requires
        0 <= from,
        forall|k: int|
            from <= k < sections.len() ==> !outline::is_child(#[trigger] sections[k], parent),
    ensures
        outline::direct_end(sections, parent, from) == parent.end,
    decreases sections.len() - from,
{
    if from < sections.len() {
        lemma_no_child(sections, parent, from + 1);
    }
}

/// Adding an item is an edit behind the heading of the section.
proof fn lemma_with_item(s: Seq<char>, i: int, text: Seq<char>)
    requires
        s.len() <= usize::MAX,
        0 <= i < markdown::sections_in(s).len(),
        with_item(s, i, text).len() <= usize::MAX,
        is_set_off(s, i),
    ensures
        ({
            let section = markdown::sections_in(s)[i];
            let changed = with_item(s, i, text);
            let p = section.start as int;
            let a = section.content_start as int;
            let b = direct_end(s, i);
            let by = changed.len() - s.len();
            let content = direct_content(s, i);
            let line = markdown::item_line(text);
            let new = new_line(s, i);
            let end = new + line.len();
            &&& edits::is_edit(s, changed, p, a, b)
            &&& text::line_end(changed, p) <= a + 1 <= new
            &&& changed[a] == '\n'
            &&& changed.subrange(a + 1, a + 1 + content.len()) == content
            &&& edits::all_in(changed.subrange(a + 1 + content.len(), new), CharClass::LineEnd)
            &&& changed[new - 1] == '\n'
            &&& content.len() > 0 ==> changed[a + 1 + content.len()] == '\n'
            &&& changed.subrange(new, end) == line
            &&& end < b + by <= changed.len()
            &&& changed[end] == '\n'
            &&& edits::all_in(changed.subrange(end, b + by), CharClass::LineEnd)
        }),
{
    let section = markdown::sections_in(s)[i];
    let changed = with_item(s, i, text);
    let p = section.start as int;
    let a = section.content_start as int;
    let b = direct_end(s, i);
    let content = direct_content(s, i);
    let line = markdown::item_line(text);
    let mid = item_text(s, i, text);
    let n = content.len() as int;
    edits::lemma_section_parts(s, i);
    lemma_direct(s, i);
    lemma_item_formula(s, i, text);
    lemma_item_text(s, i, text);
    lemma_insert(s, changed, p, a, b, mid);
    lemma_shifted(changed, a, mid, 1, 1 + n);
    let from = 1 + n;
    let new = new_line(s, i) - a;
    let end = new + line.len();
    lemma_shifted(changed, a, mid, from, new);
    lemma_shifted(changed, a, mid, new, end);
    lemma_shifted(changed, a, mid, end, mid.len() as int);
    assert(changed[a + (new - 1)] == mid[new - 1]);
    assert(changed[a + end] == mid[end]);
    if n > 0 {
        assert(changed[a + from] == mid[from]);
    }
}

/// A text in place of what follows a heading line is an edit.
proof fn lemma_insert(
    s: Seq<char>,
    changed: Seq<char>,
    p: int,
    a: int,
    b: int,
    mid: Seq<char>,
)
    requires
        0 <= p < a <= b <= s.len() <= usize::MAX,
        changed.len() <= usize::MAX,
        changed == s.take(a) + mid + s.skip(b),
        p == 0 || s[p - 1] == '\n',
        text::line_end(s, p) == a,
        edits::is_line_break(s, b),
        mid.len() > 0,
        mid[0] == '\n',
        mid[mid.len() - 1] == '\n',
    ensures
        edits::is_edit(s, changed, p, a, b),
        text::line_end(changed, p) <= a + 1,
        b + (changed.len() - s.len()) == a + mid.len(),
        forall|k: int| 0 <= k < mid.len() ==> #[trigger] changed[a + k] == mid[k],
        changed[a] == '\n',
{
    let by = changed.len() - s.len();
    assert(changed.take(a) =~= s.take(a));
    assert(changed.skip(b + by) =~= s.skip(b));
    assert(changed[a] == mid[0]);
    assert(changed[b + by - 1] == mid[mid.len() - 1]);
    edits::lemma_edge_end(s, changed, p, a);
    let f = text::line_end(changed, p);
    assert forall|k: int| 0 <= k < changed.subrange(a, f).len() implies text::in_class(
        CharClass::LineEnd,
        #[trigger] changed.subrange(a, f)[k],
    ) by {
        assert(changed.subrange(a, f)[k] == changed[a]);
    }
    assert(edits::all_in(s.subrange(a, text::line_end(s, p)), CharClass::LineEnd));
}

proof fn lemma_shifted(changed: Seq<char>, a: int, mid: Seq<char>, from: int, to: int)
    requires
        0 <= a,
        a + mid.len() <= changed.len(),
        0 <= from <= to <= mid.len(),
        forall|k: int| 0 <= k < mid.len() ==> #[trigger] changed[a + k] == mid[k],
    ensures
        changed.subrange(a + from, a + to) == mid.subrange(from, to),
{
    assert forall|k: int| 0 <= k < to - from implies changed.subrange(a + from, a + to)[k]
        == mid.subrange(from, to)[k] by {
        assert(changed[a + (from + k)] == mid[from + k]);
    }
    assert(changed.subrange(a + from, a + to) =~= mid.subrange(from, to));
}

/// What stands in place of the content of a section itself when an item is added to it.
#[verifier::opaque]
spec fn item_text(s: Seq<char>, i: int, text: Seq<char>) -> Seq<char> {
    let content = direct_content(s, i);
    let last = if direct_end(s, i) < s.len() {
        "\n"@
    } else {
        Seq::empty()
    };
    "\n"@ + content + markdown::item_gap(content) + markdown::item_line(text) + "\n"@ + last
}

/// The parts of what stands in place of the content of a section itself.
proof fn lemma_item_text(s: Seq<char>, i: int, text: Seq<char>)
    ensures
        ({
            let content = direct_content(s, i);
            let line = markdown::item_line(text);
            let mid = item_text(s, i, text);
            let n = content.len() as int;
            let new = 1 + n + markdown::item_gap(content).len();
            let end = new + line.len();
            &&& end < mid.len()
            &&& mid[0] == '\n' && mid[mid.len() - 1] == '\n'
            &&& mid.subrange(1, 1 + n) == content
            &&& edits::all_in(mid.subrange(1 + n, new), CharClass::LineEnd)
            &&& mid[new - 1] == '\n'
            &&& n > 0 ==> new > 1 + n && mid[1 + n] == '\n'
            &&& mid.subrange(new, end) == line
            &&& mid[end] == '\n'
            &&& edits::all_in(mid.subrange(end, mid.len() as int), CharClass::LineEnd)
        }),
{
    reveal(item_text);
    reveal_strlit("\n");
    reveal_strlit("\n\n");
    assert("\n"@ =~= seq!['\n']);
    assert("\n\n"@ =~= seq!['\n', '\n']);
    let content = direct_content(s, i);
    let line = markdown::item_line(text);
    let gap = markdown::item_gap(content);
    let mid = item_text(s, i, text);
    let n = content.len() as int;
    let new = 1 + n + gap.len();
    let end = new + line.len();
    assert(mid.subrange(1, 1 + n) =~= content);
    assert(mid.subrange(1 + n, new) =~= gap);
    assert(mid.subrange(new, end) =~= line);
    if n > 0 {
        assert(mid[1 + n] == gap[0]);
    }
}

/// A body with a new item is what stands before and behind the content of the section itself, and the
/// new text in its place.
proof fn lemma_item_formula(s: Seq<char>, i: int, text: Seq<char>)
    requires
        s.len() <= usize::MAX,
        0 <= i < markdown::sections_in(s).len(),
        is_set_off(s, i),
    ensures
        with_item(s, i, text) == s.take(markdown::sections_in(s)[i].content_start as int)
            + item_text(s, i, text) + s.skip(direct_end(s, i)),
{
    reveal(with_item);
    reveal(item_text);
    let a = markdown::sections_in(s)[i].content_start as int;
    let b = direct_end(s, i);
    let content = direct_content(s, i);
    let gap = markdown::item_gap(content);
    let line = markdown::item_line(text);
    let mid = item_text(s, i, text);
    let tail = s.skip(b);
    lemma_direct(s, i);
    lemma_item_text(s, i, text);
    reveal_strlit("\n");
    assert("\n"@ =~= seq!['\n']);
    let body = s.take(a) + "\n"@ + content + gap + line + "\n"@ + markdown::rest_behind(s, b);
    let whole = s.take(a) + mid + tail;
    if b < s.len() {
        assert(tail[0] == s[b]);
        text::lemma_lead(tail, CharClass::LineEnd, 0);
        assert(text::trim_start(tail, CharClass::LineEnd) =~= tail);
        assert(body.last() == s.last());
    } else {
        assert(tail =~= Seq::<char>::empty());
        assert(body.last() == '\n');
    }
    assert(body =~= whole);
    properties::lemma_finishes_one(s);
    properties::lemma_finishes_one(body);
}

/// Whether the Markdown parser reads a body with a new item as the body and the item: it reports the
/// headings and the task-list markers that it reported, in the new places of their lines, no heading in
/// the new lines, and a task-list marker for the item.
#[verifier::opaque]
pub open spec fn is_read_with(s: Seq<char>, i: int, text: Seq<char>) -> bool {
    let changed = with_item(s, i, text);
    let a = markdown::sections_in(s)[i].content_start as int;
    let b = direct_end(s, i);
    let by = changed.len() - s.len();
    let x = direct_start(s, i);
    let y = x + direct_content(s, i).len();
    &&& edits::read_around(s, changed, a, b)
    &&& forall|at: int|
        a <= at < b + by && edits::is_line_break(changed, at) ==> (
        #[trigger] markdown::line_heading(changed, markdown::marks(changed).headings, at)) is None
    &&& takes_alike(s, changed, 0, a, 0)
    &&& takes_alike(s, changed, x, y, a + 1 - x)
    &&& takes_alike(s, changed, b, s.len() as int, by)
    &&& takes(changed, new_line(s, i) + 3)
}

/// Whether a text is one line, without the white space around it.
pub open spec fn is_line(text: Seq<char>) -> bool {
    !text::trim(text).contains('\n')
}

/// The line of a new item is that of an open one.
proof fn lemma_item_line(text: Seq<char>)
    requires
        !text::is_blank(text),
        is_line(text),
    ensures
        ({
            let line = markdown::item_line(text);
            let t = text::trim(text);
            &&& line.len() > 0
            &&& forall|k: int| 0 <= k < line.len() ==> #[trigger] line[k] != '\n'
            &&& !text::in_class(CharClass::LineEnd, line.last())
            &&& text::trim_start(line, CharClass::Space) == line
            &&& markdown::checkbox(line) == Some(
                markdown::CheckboxView { at: 3, checked: false, text: t },
            )
        }),
{
    let line = markdown::item_line(text);
    let t = text::trim(text);
    reveal_strlit("- [ ] ");
    assert("- [ ] "@ =~= seq!['-', ' ', '[', ' ', ']', ' ']);
    let first = text::trim_start(text, CharClass::Space);
    let lead = text::lead(text, CharClass::Space) as int;
    text::lemma_lead_is(text, CharClass::Space);
    text::lemma_trail_is(first, CharClass::Space);
    assert forall|k: int| 0 <= k < t.len() implies #[trigger] t[k] != '\n' by {
        assert(t.contains(t[k]));
    }
    edits::lemma_ends_of_trimmed(text, CharClass::Space);
    let k = choose|k: int| 0 <= k < text.len() && !text::is_space(#[trigger] text[k]);
    assert(lead <= k);
    assert(first[k - lead] == text[k]);
    assert(t.len() > 0) by {
        if t.len() == 0 {
            assert(text::in_class(CharClass::Space, first[k - lead]));
        }
    }
    assert forall|k: int| 0 <= k < line.len() implies #[trigger] line[k] != '\n' by {
        if k >= 6 {
            assert(line[k] == t[k - 6]);
        }
    }
    assert(line.last() == t[t.len() - 1]);
    text::lemma_lead(line, CharClass::Space, 0);
    assert(text::trim_start(line, CharClass::Space) =~= line);
    let rest = line.skip(1);
    assert(rest[0] == ' ' && rest[1] == '[');
    text::lemma_lead(rest, CharClass::Blank, 1);
    assert(line.skip(5) =~= seq![' '] + t + Seq::<char>::empty());
    edits::lemma_trim_around(seq![' '], t, Seq::empty(), CharClass::Space);
    properties::lemma_trim_again(text);
}

/// The line of a new item holds it.
proof fn lemma_new_box(changed: Seq<char>, new: int, text: Seq<char>)
    requires
        !text::is_blank(text),
        is_line(text),
        0 <= new,
        new + markdown::item_line(text).len() < changed.len(),
        changed.subrange(new, new + markdown::item_line(text).len()) == markdown::item_line(text),
        changed[new + markdown::item_line(text).len()] == '\n',
        takes(changed, new + 3),
    ensures
        line_box(changed, new) == Some(
            BoxView { start: new, checked: false, text: text::trim(text) },
        ),
        text::line_end(changed, new) == new + markdown::item_line(text).len() + 1,
{
    let line = markdown::item_line(text);
    let end = new + line.len();
    lemma_item_line(text);
    assert forall|k: int| new <= k < end implies #[trigger] changed[k] != '\n' by {
        assert(changed.subrange(new, end)[k - new] == line[k - new]);
    }
    assert(changed.subrange(new, end)[line.len() - 1] == line.last());
    assert(changed.skip(end)[0] == '\n');
    lemma_last_line(changed, new, end);
    text::lemma_next_index(changed, '\n', new, end);
}

/// The heading line of a section holds no item, and what stands before it holds the same ones.
proof fn lemma_first_boxes(s: Seq<char>, changed: Seq<char>, i: int, b: int)
    requires
        s.len() <= usize::MAX,
        0 <= i < markdown::sections_in(s).len(),
        ({
            let section = markdown::sections_in(s)[i];
            &&& edits::is_edit(
                s,
                changed,
                section.start as int,
                section.content_start as int,
                b,
            )
            &&& takes_alike(s, changed, 0, section.content_start as int, 0)
        }),
    ensures
        ({
            let section = markdown::sections_in(s)[i];
            let p = section.start as int;
            &&& boxes_between(changed, 0, text::line_end(changed, p)) == boxes_between(
                s,
                0,
                section.content_start as int,
            )
            &&& boxes_between(s, 0, section.content_start as int) == boxes_between(s, 0, p)
        }),
{
    let section = markdown::sections_in(s)[i];
    let p = section.start as int;
    let a = section.content_start as int;
    let f = text::line_end(changed, p);
    let none = Seq::<BoxView>::empty();
    edits::lemma_section_parts(s, i);
    properties::lemma_headings_in(s);
    text::lemma_line_end(changed, p);
    assert(p > 0 ==> changed[p - 1] == '\n') by {
        if p > 0 {
            assert(s.take(a)[p - 1] == s[p - 1]);
            assert(changed.take(a)[p - 1] == changed[p - 1]);
        }
    }
    assert(changed.take(p) =~= changed.take(a).take(p));
    assert(s.take(p) =~= s.take(a).take(p));
    lemma_same_prefix(s, changed, 0, p);
    lemma_split(s, 0, p, a);
    lemma_split(changed, 0, p, f);
    let h = properties::headings_in(s);
    assert(properties::is_heading(s, markdown::marks(s).headings, h[i]));
    edits::lemma_edge_line(s, changed, p, a, b);
    edits::lemma_core_heading(s, p);
    edits::lemma_core_heading(changed, p);
    lemma_heading_is_no_box(s, p);
    lemma_heading_is_no_box(changed, p);
    assert(boxes_between(s, a, a) =~= none);
    assert(boxes_between(changed, f, f) =~= none);
    assert(boxes_between(s, p, a) =~= none);
    assert(boxes_between(changed, p, f) =~= none);
    assert(boxes_between(s, 0, p) + none =~= boxes_between(s, 0, p));
}

/// The items of the content of a section itself.
proof fn lemma_own_boxes(s: Seq<char>, i: int)
    requires
        s.len() <= usize::MAX,
        0 <= i < markdown::sections_in(s).len(),
        is_set_off(s, i),
    ensures
        ({
            let a = markdown::sections_in(s)[i].content_start as int;
            let x = direct_start(s, i);
            boxes_between(s, a, direct_end(s, i)) == boxes_between(
                s,
                x,
                x + direct_content(s, i).len(),
            )
        }),
{
    let a = markdown::sections_in(s)[i].content_start as int;
    let b = direct_end(s, i);
    let x = direct_start(s, i);
    let y = x + direct_content(s, i).len();
    lemma_direct(s, i);
    lemma_split(s, a, x, b);
    lemma_no_boxes(s, a, x);
    assert(Seq::<BoxView>::empty() + boxes_between(s, x, b) =~= boxes_between(s, x, b));
    lemma_then_blank(s, x, y, b);
}

/// The items in the new content of a section: those that it had, and the new one.
proof fn lemma_new_boxes(s: Seq<char>, i: int, text: Seq<char>)
    requires
        s.len() <= usize::MAX,
        0 <= i < markdown::sections_in(s).len(),
        with_item(s, i, text).len() <= usize::MAX,
        is_set_off(s, i),
        !text::is_blank(text),
        is_line(text),
        is_read_with(s, i, text),
    ensures
        ({
            let section = markdown::sections_in(s)[i];
            let changed = with_item(s, i, text);
            let a = section.content_start as int;
            let b = direct_end(s, i);
            let by = changed.len() - s.len();
            let f = text::line_end(changed, section.start as int);
            boxes_between(changed, f, b + by) == all_moved(
                boxes_between(s, a, b),
                a + 1 - direct_start(s, i),
            ).push(BoxView { start: new_line(s, i), checked: false, text: text::trim(text) })
        }),
{
    reveal(is_read_with);
    let section = markdown::sections_in(s)[i];
    let changed = with_item(s, i, text);
    let a = section.content_start as int;
    let b = direct_end(s, i);
    let by = changed.len() - s.len();
    let f = text::line_end(changed, section.start as int);
    let x = direct_start(s, i);
    let n = direct_content(s, i).len() as int;
    let new = new_line(s, i);
    let end = new + markdown::item_line(text).len();
    let d = a + 1 - x;
    let none = Seq::<BoxView>::empty();
    lemma_direct(s, i);
    lemma_with_item(s, i, text);
    lemma_own_boxes(s, i);
    assert(edits::is_line_break(changed, a + 1));
    lemma_split(changed, f, a + 1, b + by);
    assert forall|k: int| 0 <= k < changed.subrange(f, a + 1).len() implies text::in_class(
        CharClass::LineEnd,
        #[trigger] changed.subrange(f, a + 1)[k],
    ) by {
        assert(changed.subrange(f, a + 1)[k] == changed[a]);
    }
    lemma_no_boxes(changed, f, a + 1);
    assert(edits::is_line_break(changed, new));
    lemma_split(changed, a + 1, new, b + by);
    lemma_then_blank(changed, a + 1, a + 1 + n, new);
    if n > 0 {
        assert(changed.subrange(x + d, x + n + d) == s.subrange(x, x + n));
        assert(changed.skip(x + n + d)[0] == changed[a + 1 + n]);
        assert(s[x + n - 1] == direct_content(s, i).last()) by {
            assert(s.subrange(x, x + n)[n - 1] == s[x + n - 1]);
        }
        lemma_same_boxes(s, changed, x, x + n, d, x);
    } else {
        assert(boxes_between(s, x, x + n) =~= none);
        assert(boxes_between(changed, a + 1, a + 1 + n) =~= none);
        assert(all_moved(none, d) =~= none);
    }
    lemma_new_box(changed, new, text);
    assert forall|k: int| 0 <= k < changed.subrange(end + 1, b + by).len() implies text::in_class(
        CharClass::LineEnd,
        #[trigger] changed.subrange(end + 1, b + by)[k],
    ) by {
        assert(changed.subrange(end + 1, b + by)[k] == changed.subrange(end, b + by)[k + 1]);
    }
    lemma_no_boxes(changed, end + 1, b + by);
    let added = BoxView { start: new, checked: false, text: text::trim(text) };
    assert(boxes_between(changed, new, b + by) =~= seq![added]);
    let kept = all_moved(boxes_between(s, a, b), d);
    assert(none + (kept + seq![added]) =~= kept.push(added));
}

/// The items of a body with a new one: those before the section and of its own content, the new one, and
/// those behind.
proof fn lemma_all_boxes(s: Seq<char>, i: int, text: Seq<char>)
    requires
        s.len() <= usize::MAX,
        0 <= i < markdown::sections_in(s).len(),
        with_item(s, i, text).len() <= usize::MAX,
        is_set_off(s, i),
        !text::is_blank(text),
        is_line(text),
        is_read_with(s, i, text),
    ensures
        ({
            let changed = with_item(s, i, text);
            let a = markdown::sections_in(s)[i].content_start as int;
            let b = direct_end(s, i);
            let by = changed.len() - s.len();
            let first = boxes_between(s, 0, a);
            let own = boxes_between(s, a, b);
            let last = boxes_between(s, b, s.len() as int);
            let added = BoxView {
                start: new_line(s, i),
                checked: false,
                text: text::trim(text),
            };
            &&& boxes_of(markdown::tasks_in(s, markdown::marks(s))) == first + own + last
            &&& boxes_of(markdown::tasks_in(changed, markdown::marks(changed))) == first
                + all_moved(own, a + 1 - direct_start(s, i)).push(added) + all_moved(last, by)
        }),
{
    reveal(is_read_with);
    let section = markdown::sections_in(s)[i];
    let changed = with_item(s, i, text);
    let p = section.start as int;
    let a = section.content_start as int;
    let b = direct_end(s, i);
    let by = changed.len() - s.len();
    let f = text::line_end(changed, p);
    edits::lemma_section_parts(s, i);
    lemma_direct(s, i);
    lemma_with_item(s, i, text);
    lemma_first_boxes(s, changed, i, b);
    lemma_new_boxes(s, i, text);
    lemma_same_suffix(s, changed, b, b);
    lemma_boxes(s, 0, 1, Seq::empty());
    lemma_boxes(changed, 0, 1, Seq::empty());
    let none = Seq::<BoxView>::empty();
    assert(boxes_of(Seq::empty()) =~= none);
    text::lemma_line_end(changed, p);
    lemma_split(s, 0, b, s.len() as int);
    lemma_split(s, 0, a, b);
    lemma_split(changed, 0, b + by, changed.len() as int);
    lemma_split(changed, 0, f, b + by);
    assert(none + boxes_between(s, 0, s.len() as int) =~= boxes_between(s, 0, s.len() as int));
    assert(none + boxes_between(changed, 0, changed.len() as int) =~= boxes_between(
        changed,
        0,
        changed.len() as int,
    ));
}

/// The headings of a body with a new item are those of the body, those behind the item moved.
proof fn lemma_headings(s: Seq<char>, i: int, text: Seq<char>)
    requires
        s.len() <= usize::MAX,
        0 <= i < markdown::sections_in(s).len(),
        with_item(s, i, text).len() <= usize::MAX,
        is_set_off(s, i),
        is_read_with(s, i, text),
    ensures
        ({
            let section = markdown::sections_in(s)[i];
            let changed = with_item(s, i, text);
            let by = changed.len() - s.len();
            let h = properties::headings_in(s);
            let g = properties::headings_in(changed);
            let p = section.start as int;
            &&& h.len() == g.len()
            &&& forall|j: int|
                0 <= j < h.len() ==> (#[trigger] g[j]).title == h[j].title && g[j].level
                    == h[j].level
            &&& forall|j: int|
                0 <= j < i ==> (#[trigger] g[j]) == h[j] && h[j].content_start <= p
            &&& g[i].start == p && g[i].content_start == text::line_end(changed, p)
            &&& forall|j: int|
                i < j < h.len() ==> (#[trigger] g[j]).start == h[j].start + by
                    && g[j].content_start == h[j].content_start + by && h[j].start >= direct_end(
                    s,
                    i,
                )
        }),
{
    reveal(is_read_with);
    let section = markdown::sections_in(s)[i];
    let changed = with_item(s, i, text);
    let by = changed.len() - s.len();
    let h = properties::headings_in(s);
    let g = properties::headings_in(changed);
    let p = section.start as int;
    let a = section.content_start as int;
    let b = direct_end(s, i);
    let others = markdown::marks(changed).headings;
    let f = text::line_end(changed, p);
    edits::lemma_section_parts(s, i);
    lemma_direct(s, i);
    lemma_with_item(s, i, text);
    edits::lemma_edit(s, changed, p, a, b);
    properties::lemma_headings_in(s);
    text::lemma_line_end(changed, p);
    edits::lemma_between(changed, others, f, b + by);
    let mid = edits::mid_part(changed, p, a, b + by);
    assert(mid.len() == 0) by {
        if mid.len() > 0 {
            assert(edits::is_heading_of(changed, others, f, b + by, mid[0]));
        }
    }
    let first = edits::first_part(s, p, a);
    let again = edits::first_part(changed, p, a);
    let last = edits::last_part(s, b);
    edits::lemma_between(s, markdown::marks(s).headings, b, s.len() as int);
    assert forall|j: int| 0 <= j < h.len() implies (#[trigger] g[j]).title == h[j].title
        && g[j].level == h[j].level && (j < i ==> g[j] == h[j] && h[j].content_start <= p) && (j
        == i ==> g[j].start == p && g[j].content_start == f) && (j > i ==> g[j].start
        == h[j].start + by && g[j].content_start == h[j].content_start + by && h[j].start >= b) by {
        if j <= i {
            assert(h[j] == first[j] && g[j] == again[j]);
            assert(edits::is_kept(first[j], again[j]));
            if j < i {
                assert(h[j].content_start <= h[i].start);
            }
        } else {
            let k = j - i - 1;
            assert(h[j] == last[k]);
            assert(g[j] == edits::moved(last[k], by));
            assert(edits::is_heading_of(
                s,
                markdown::marks(s).headings,
                b,
                s.len() as int,
                last[k],
            ));
        }
    }
}

/// Whether an index of a body and one of the body with a new item are in the same sections.
spec fn same_place(s: Seq<char>, i: int, text: Seq<char>, at: int, new: int) -> bool {
    let section = markdown::sections_in(s)[i];
    let a = section.content_start as int;
    let b = direct_end(s, i);
    let by = with_item(s, i, text).len() - s.len();
    ||| at < section.start && new == at
    ||| a <= at < b && a + 1 <= new < b + by
    ||| b <= at && new == at + by
}

/// Whether a section of a body with a new item is at its new place.
spec fn is_placed(s: Seq<char>, i: int, text: Seq<char>, j: int) -> bool {
    let section = markdown::sections_in(s)[j];
    let other = markdown::sections_in(with_item(s, i, text))[j];
    let parent = markdown::sections_in(s)[i];
    let b = direct_end(s, i);
    let by = with_item(s, i, text).len() - s.len();
    &&& j < i ==> section.content_start <= parent.start && other.content_start
        == section.content_start
    &&& j == i ==> parent.start < other.content_start <= parent.content_start + 1
    &&& j > i ==> section.content_start >= b && other.content_start == section.content_start + by
    &&& {
        ||| j < i && section.end <= parent.start && other.end == section.end
        ||| section.end >= b && other.end == section.end + by && (j < i ==> section.level
            < parent.level)
    }
}

/// What the sections of a body with a new item are.
proof fn lemma_section(s: Seq<char>, i: int, text: Seq<char>, j: int)
    requires
        s.len() <= usize::MAX,
        0 <= i < markdown::sections_in(s).len(),
        with_item(s, i, text).len() <= usize::MAX,
        is_set_off(s, i),
        is_read_with(s, i, text),
        0 <= j < markdown::sections_in(s).len(),
    ensures
        ({
            let sections = markdown::sections_in(s);
            let others = markdown::sections_in(with_item(s, i, text));
            &&& others.len() == sections.len()
            &&& others[j].title == sections[j].title
            &&& others[j].level == sections[j].level
            &&& is_placed(s, i, text, j)
        }),
{
    let sections = markdown::sections_in(s);
    let changed = with_item(s, i, text);
    let h = properties::headings_in(s);
    let g = properties::headings_in(changed);
    let p = sections[i].start as int;
    let b = direct_end(s, i);
    let by = changed.len() - s.len();
    let level = h[j].level;
    lemma_headings(s, i, text);
    assert(p < text::line_end(changed, p) <= sections[i].content_start + 1 && p < s.len()
        && direct_end(s, i) <= s.len()) by {
        lemma_with_item(s, i, text);
        lemma_direct(s, i);
        edits::lemma_section_parts(s, i);
        text::lemma_line_end(changed, p);
    }
    properties::lemma_headings_in(s);
    let m = edits::find_peer(h, j + 1, level);
    assert forall|k: int| j + 1 <= k < m implies (#[trigger] g[k]).level > level by {
        assert(h[k].level > level);
    }
    assert(edits::is_peer(g, j + 1, level, m)) by {
        if m < g.len() {
            assert(g[m].level == h[m].level);
        }
    }
    edits::lemma_peer(h, j + 1, level, s.len() as usize, m);
    edits::lemma_peer(g, j + 1, level, changed.len() as usize, m);
    assert(g[j].level == level);
    if m <= i {
        assert(h[m].start <= h[i].start) by {
            if m < i {
                assert(h[m].start < h[m].content_start);
                assert(h[m].content_start <= h[i].start);
            }
        }
        assert(g[m].start == h[m].start) by {
            if m < i {
                assert(g[m] == h[m]);
            }
        }
    } else {
        assert(m < h.len() ==> g[m].start == h[m].start + by && h[m].start >= b);
        assert(j < i ==> h[i].level > level);
    }
    assert(j < i ==> g[j] == h[j]);
    assert(j > i ==> g[j].content_start == h[j].content_start + by && h[j].start
        < h[j].content_start && h[j].start >= b);
}

/// The deepest section that holds an index is the same where the same sections hold it.
pub proof fn lemma_same_deepest(
    sections: Seq<RegionView>,
    others: Seq<RegionView>,
    at: int,
    new: int,
    n: nat,
)
    requires
        n <= sections.len(),
        sections.len() == others.len(),
        forall|j: int|
            0 <= j < n ==> (#[trigger] others[j]).level == sections[j].level && outline::holds(
                others[j],
                new,
            ) == outline::holds(sections[j], at),
    ensures
        outline::deepest(sections, at, n) == outline::deepest(others, new, n),
    decreases n,
{
    if n > 0 {
        lemma_same_deepest(sections, others, at, new, (n - 1) as nat);
        outline::lemma_deepest(sections, at, (n - 1) as nat);
        assert(others[n - 1].level == sections[n - 1].level);
        if let Some(best) = outline::deepest(sections, at, (n - 1) as nat) {
            assert(others[best].level == sections[best].level);
        }
    }
}

/// Two indices in the same sections have one deepest section.
proof fn lemma_same_place(s: Seq<char>, i: int, text: Seq<char>, at: int, new: int)
    requires
        s.len() <= usize::MAX,
        0 <= i < markdown::sections_in(s).len(),
        with_item(s, i, text).len() <= usize::MAX,
        is_set_off(s, i),
        is_read_with(s, i, text),
        same_place(s, i, text, at, new),
    ensures
        ({
            let sections = markdown::sections_in(s);
            let others = markdown::sections_in(with_item(s, i, text));
            outline::deepest(sections, at, sections.len()) == outline::deepest(
                others,
                new,
                others.len(),
            )
        }),
{
    let sections = markdown::sections_in(s);
    let others = markdown::sections_in(with_item(s, i, text));
    lemma_section(s, i, text, i);
    assert(sections[i].start < sections[i].content_start <= direct_end(s, i)) by {
        edits::lemma_section_parts(s, i);
        lemma_direct(s, i);
    }
    assert(direct_end(s, i) + (with_item(s, i, text).len() - s.len())
        > sections[i].content_start) by {
        lemma_with_item(s, i, text);
    }
    assert forall|j: int| 0 <= j < sections.len() implies (#[trigger] others[j]).level
        == sections[j].level && outline::holds(others[j], new) == outline::holds(
        sections[j],
        at,
    ) by {
        lemma_section(s, i, text, j);
    }
    lemma_same_deepest(sections, others, at, new, sections.len());
}

/// The section of a new item is the one that it was added to.
proof fn lemma_new_place(s: Seq<char>, i: int, text: Seq<char>)
    requires
        s.len() <= usize::MAX,
        0 <= i < markdown::sections_in(s).len(),
        with_item(s, i, text).len() <= usize::MAX,
        is_set_off(s, i),
        is_read_with(s, i, text),
    ensures
        ({
            let others = markdown::sections_in(with_item(s, i, text));
            outline::deepest(others, new_line(s, i), others.len()) == Some(i)
        }),
{
    let others = markdown::sections_in(with_item(s, i, text));
    let new = new_line(s, i);
    let sections = markdown::sections_in(s);
    let by = with_item(s, i, text).len() - s.len();
    assert(sections[i].start < sections[i].content_start < new < direct_end(s, i) + by) by {
        lemma_with_item(s, i, text);
        edits::lemma_section_parts(s, i);
    }
    assert(sections[i].content_start <= direct_end(s, i)) by {
        lemma_direct(s, i);
    }
    lemma_section(s, i, text, i);
    outline::lemma_deepest(others, new, others.len());
    assert(outline::holds(others[i], new));
    assert forall|k: int| 0 <= k < others.len() && k != i && outline::holds(
        #[trigger] others[k],
        new,
    ) implies others[k].level < others[i].level by {
        lemma_section(s, i, text, k);
    }
}

/// Whether two checklist items have one text and state and are in sections of one title.
pub open spec fn same_item(a: ItemView, b: ItemView) -> bool {
    a.section == b.section && a.text == b.text && a.checked == b.checked
}

/// What an item of a body is, given its box.
pub proof fn lemma_item(s: Seq<char>, j: int)
    requires
        0 <= j < markdown::items_in(s).len(),
    ensures
        ({
            let sections = markdown::sections_in(s);
            let found = boxes_of(markdown::tasks_in(s, markdown::marks(s)))[j];
            let held = outline::deepest(sections, found.start, sections.len());
            let item = markdown::items_in(s)[j];
            &&& item.text == found.text
            &&& item.checked == found.checked
            &&& item.line.start == found.start
            &&& item.section == match held {
                Some(k) => Some(sections[k].title),
                None => None,
            }
        }),
{
}

/// Where the boxes of a body with a new item stand.
proof fn lemma_box_placed(s: Seq<char>, i: int, text: Seq<char>, j: int)
    requires
        s.len() <= usize::MAX,
        0 <= i < markdown::sections_in(s).len(),
        with_item(s, i, text).len() <= usize::MAX,
        is_set_off(s, i),
        !text::is_blank(text),
        is_line(text),
        is_read_with(s, i, text),
        0 <= j < boxes_of(markdown::tasks_in(s, markdown::marks(s))).len(),
    ensures
        ({
            let changed = with_item(s, i, text);
            let b = direct_end(s, i);
            let boxes = boxes_of(markdown::tasks_in(s, markdown::marks(s)));
            let again = boxes_of(markdown::tasks_in(changed, markdown::marks(changed)));
            let at = boxes_between(s, 0, b).len() as int;
            let k = if j < at {
                j
            } else {
                j + 1
            };
            &&& at <= boxes.len()
            &&& again.len() == boxes.len() + 1
            &&& boxes[j].start < b <==> j < at
            &&& boxes[j].text == again[k].text
            &&& boxes[j].checked == again[k].checked
            &&& same_place(s, i, text, boxes[j].start, again[k].start)
        }),
{
    let section = markdown::sections_in(s)[i];
    let changed = with_item(s, i, text);
    let p = section.start as int;
    let a = section.content_start as int;
    let b = direct_end(s, i);
    let by = changed.len() - s.len();
    let d = a + 1 - direct_start(s, i);
    let first = boxes_between(s, 0, a);
    let own = boxes_between(s, a, b);
    let last = boxes_between(s, b, s.len() as int);
    let boxes = boxes_of(markdown::tasks_in(s, markdown::marks(s)));
    let again = boxes_of(markdown::tasks_in(changed, markdown::marks(changed)));
    let n = first.len() as int;
    let at = n + own.len();
    let mid = all_moved(own, d).push(
        BoxView { start: new_line(s, i), checked: false, text: text::trim(text) },
    );
    lemma_all_boxes(s, i, text);
    assert(p < a <= b <= s.len() && edits::is_line_break(s, a)) by {
        edits::lemma_section_parts(s, i);
        lemma_direct(s, i);
    }
    assert(first == boxes_between(s, 0, p)) by {
        lemma_with_item(s, i, text);
        reveal(is_read_with);
        lemma_first_boxes(s, changed, i, b);
    }
    lemma_split(s, 0, a, b);
    if j < n {
        lemma_between(s, 0, p);
        assert(boxes[j] == first[j] && again[j] == first[j]);
    } else if j < at {
        assert(boxes[j] == own[j - n]);
        assert(again[j] == mid[j - n]);
        lemma_own_place(s, i, text, j - n);
    } else {
        lemma_between(s, b, s.len() as int);
        assert(boxes[j] == last[j - at]);
        assert(again[j + 1] == all_moved(last, by)[j - at]);
    }
}

/// Where the items of a body with a new one stand.
proof fn lemma_placed(s: Seq<char>, i: int, text: Seq<char>, j: int)
    requires
        s.len() <= usize::MAX,
        0 <= i < markdown::sections_in(s).len(),
        with_item(s, i, text).len() <= usize::MAX,
        is_set_off(s, i),
        !text::is_blank(text),
        is_line(text),
        is_read_with(s, i, text),
        0 <= j < markdown::items_in(s).len(),
    ensures
        ({
            let changed = with_item(s, i, text);
            let b = direct_end(s, i);
            let items = markdown::items_in(s);
            let others = markdown::items_in(changed);
            let at = boxes_between(s, 0, b).len() as int;
            &&& at <= items.len()
            &&& others.len() == items.len() + 1
            &&& items[j].line.start < b <==> j < at
            &&& j < at ==> same_item(items[j], others[j])
            &&& j >= at ==> same_item(items[j], others[j + 1])
        }),
{
    let changed = with_item(s, i, text);
    let b = direct_end(s, i);
    let boxes = boxes_of(markdown::tasks_in(s, markdown::marks(s)));
    let again = boxes_of(markdown::tasks_in(changed, markdown::marks(changed)));
    let at = boxes_between(s, 0, b).len() as int;
    let k = if j < at {
        j
    } else {
        j + 1
    };
    lemma_box_placed(s, i, text, j);
    lemma_item(s, j);
    lemma_item(changed, k);
    let sections = markdown::sections_in(s);
    let start = boxes[j].start;
    lemma_same_place(s, i, text, start, again[k].start);
    outline::lemma_deepest(sections, start, sections.len());
    if let Some(q) = outline::deepest(sections, start, sections.len()) {
        lemma_section(s, i, text, q);
    }
}

/// The item that was added.
proof fn lemma_new_item(s: Seq<char>, i: int, text: Seq<char>)
    requires
        s.len() <= usize::MAX,
        0 <= i < markdown::sections_in(s).len(),
        with_item(s, i, text).len() <= usize::MAX,
        is_set_off(s, i),
        !text::is_blank(text),
        is_line(text),
        is_read_with(s, i, text),
    ensures
        ({
            let changed = with_item(s, i, text);
            let items = markdown::items_in(s);
            let others = markdown::items_in(changed);
            let at = boxes_between(s, 0, direct_end(s, i)).len() as int;
            &&& 0 <= at <= items.len()
            &&& others.len() == items.len() + 1
            &&& others[at].section == Some(markdown::sections_in(s)[i].title)
            &&& others[at].text == text::trim(text)
            &&& !others[at].checked
        }),
{
    let changed = with_item(s, i, text);
    let section = markdown::sections_in(s)[i];
    let a = section.content_start as int;
    let b = direct_end(s, i);
    let by = changed.len() - s.len();
    let first = boxes_between(s, 0, a);
    let own = boxes_between(s, a, b);
    let last = boxes_between(s, b, s.len() as int);
    let again = boxes_of(markdown::tasks_in(changed, markdown::marks(changed)));
    let at = boxes_between(s, 0, b).len() as int;
    let added = BoxView { start: new_line(s, i), checked: false, text: text::trim(text) };
    let moved = all_moved(own, a + 1 - direct_start(s, i));
    lemma_all_boxes(s, i, text);
    assert(a <= b && edits::is_line_break(s, a)) by {
        edits::lemma_section_parts(s, i);
        lemma_direct(s, i);
    }
    lemma_split(s, 0, a, b);
    assert(again == first + moved.push(added) + all_moved(last, by));
    assert(again[at] == added);
    let boxes = boxes_of(markdown::tasks_in(s, markdown::marks(s)));
    assert(boxes.len() == markdown::items_in(s).len());
    assert(again.len() == markdown::items_in(changed).len());
    lemma_item(changed, at);
    lemma_new_place(s, i, text);
    lemma_section(s, i, text, i);
}

/// An item of the content of a section itself stands in its new content.
proof fn lemma_own_place(s: Seq<char>, i: int, text: Seq<char>, k: int)
    requires
        s.len() <= usize::MAX,
        0 <= i < markdown::sections_in(s).len(),
        with_item(s, i, text).len() <= usize::MAX,
        is_set_off(s, i),
        0 <= k < boxes_between(
            s,
            markdown::sections_in(s)[i].content_start as int,
            direct_end(s, i),
        ).len(),
    ensures
        ({
            let a = markdown::sections_in(s)[i].content_start as int;
            let b = direct_end(s, i);
            let start = boxes_between(s, a, b)[k].start;
            let new = start + (a + 1 - direct_start(s, i));
            a <= start < b && a + 1 <= new < b + (with_item(s, i, text).len() - s.len())
        }),
{
    let x = direct_start(s, i);
    let y = x + direct_content(s, i).len();
    lemma_direct(s, i);
    lemma_own_boxes(s, i);
    lemma_between(s, x, y);
    lemma_with_item(s, i, text);
}

/// An item that is added to a section is read back: the sections keep their titles and levels, and the
/// checklist items are those that there were, in sections of the same titles, and the new one, open, in
/// its section, behind the items that begin before the end of the section's own content. Its place in
/// the list is the result.
pub proof fn an_added_item_is_read_back(
    s: Seq<char>,
    section: Seq<char>,
    text: Seq<char>,
    i: int,
) -> (at: int)
    requires
        s.len() <= usize::MAX,
        outline::only_titled(markdown::sections_in(s), text::trim(section)) == Ok::<
            Option<int>,
            nat,
        >(Some(i)),
        markdown::item_added(s, section, text) is Ok,
        markdown::item_added(s, section, text)->Ok_0.len() <= usize::MAX,
        is_set_off(s, i),
        is_line(text),
        is_read_with(s, i, text),
    ensures
        ({
            let changed = markdown::item_added(s, section, text)->Ok_0;
            let sections = markdown::sections_in(s);
            let items = markdown::items_in(s);
            let others = markdown::items_in(changed);
            &&& markdown::sections_in(changed).len() == sections.len()
            &&& forall|j: int|
                0 <= j < sections.len() ==> (#[trigger] markdown::sections_in(changed)[j]).title
                    == sections[j].title && markdown::sections_in(changed)[j].level
                    == sections[j].level
            &&& 0 <= at <= items.len()
            &&& others.len() == items.len() + 1
            &&& others[at].section == Some(sections[i].title)
            &&& others[at].text == text::trim(text)
            &&& !others[at].checked
            &&& forall|j: int|
                0 <= j < items.len() ==> ((#[trigger] items[j]).line.start < direct_end(s, i)
                    <==> j < at)
            &&& forall|j: int| 0 <= j < at ==> same_item(#[trigger] items[j], others[j])
            &&& forall|j: int|
                at <= j < items.len() ==> same_item(#[trigger] items[j], others[j + 1])
        }),
{
    let changed = with_item(s, i, text);
    let sections = markdown::sections_in(s);
    let items = markdown::items_in(s);
    let others = markdown::items_in(changed);
    let b = direct_end(s, i);
    let at = boxes_between(s, 0, b).len() as int;
    lemma_is_added(s, section, text, i);
    assert forall|j: int| 0 <= j < sections.len() implies (#[trigger] markdown::sections_in(
        changed,
    )[j]).title == sections[j].title && markdown::sections_in(changed)[j].level
        == sections[j].level by {
        lemma_section(s, i, text, j);
    }
    lemma_section(s, i, text, i);
    lemma_new_item(s, i, text);
    assert forall|j: int| 0 <= j < items.len() implies ((#[trigger] items[j]).line.start < b <==> j
        < at) && (j < at ==> same_item(items[j], others[j])) && (j >= at ==> same_item(
        items[j],
        others[j + 1],
    )) by {
        lemma_placed(s, i, text, j);
    }
    at
}

/// Adding an item to the section of a title is adding it there.
proof fn lemma_is_added(s: Seq<char>, section: Seq<char>, text: Seq<char>, i: int)
    requires
        outline::only_titled(markdown::sections_in(s), text::trim(section)) == Ok::<
            Option<int>,
            nat,
        >(Some(i)),
        markdown::item_added(s, section, text) is Ok,
    ensures
        0 <= i < markdown::sections_in(s).len(),
        !text::is_blank(text),
        markdown::item_added(s, section, text)->Ok_0 == with_item(s, i, text),
{
    reveal(with_item);
    edits::lemma_titled(markdown::sections_in(s), text::trim(section));
}

/// Where the line of a new item begins that is added with its section.
pub open spec fn first_line(s: Seq<char>, section: Seq<char>) -> int {
    edits::new_start(s) + 4 + text::trim(section).len() + 1
}

/// Whether the Markdown parser reads a body with a new item in a new section as the body, the section and
/// the item: it reports the headings and the task-list markers that it reported, one for the heading, and
/// one for the item.
pub open spec fn is_read_with_section(s: Seq<char>, section: Seq<char>, text: Seq<char>) -> bool {
    let changed = markdown::with_section(s, section, markdown::item_line(text));
    let a = text::trim_end(s, CharClass::LineEnd).len() as int;
    &&& edits::can_add(s, section, markdown::item_line(text))
    &&& takes_alike(s, changed, 0, a, 0)
    &&& takes(changed, first_line(s, section) + 3)
}

/// What a body with a new item in a new section is behind the heading of the section.
proof fn lemma_section_text(s: Seq<char>, section: Seq<char>, text: Seq<char>)
    requires
        !text::is_blank(text),
        is_line(text),
    ensures
        ({
            let line = markdown::item_line(text);
            let changed = markdown::with_section(s, section, line);
            let a = text::trim_end(s, CharClass::LineEnd).len() as int;
            let new = first_line(s, section);
            let end = new + line.len();
            &&& changed.len() == end + 1
            &&& changed[new - 1] == '\n'
            &&& changed.subrange(new, end) == line
            &&& changed[end] == '\n'
            &&& a > 0 ==> changed[a] == '\n'
        }),
{
    let line = markdown::item_line(text);
    let base = text::trim_end(s, CharClass::LineEnd);
    let t = text::trim(section);
    lemma_item_line(text);
    reveal_strlit("\n");
    reveal_strlit("\n\n");
    reveal_strlit("## ");
    reveal_strlit("- [ ] ");
    assert("\n"@ =~= seq!['\n']);
    assert("\n\n"@ =~= seq!['\n', '\n']);
    assert("## "@ =~= seq!['#', '#', ' ']);
    assert(line[0] == '-');
    assert(!text::is_blank(line)) by {
        assert(!text::is_space(line[0]));
    }
    text::lemma_lead(line, CharClass::LineEnd, 0);
    assert(text::trim_start(line, CharClass::LineEnd) =~= line);
    text::lemma_trail_is(line, CharClass::LineEnd);
    assert(text::trail(line, CharClass::LineEnd) == 0) by {
        if text::trail(line, CharClass::LineEnd) > 0 {
            assert(text::in_class(CharClass::LineEnd, line[line.len() - 1]));
        }
    }
    assert(text::trim_both(line, CharClass::LineEnd) =~= line);
    let gap = if base.len() == 0 {
        Seq::empty()
    } else {
        "\n\n"@
    };
    let changed = base + gap + "## "@ + t + ("\n\n"@ + line) + "\n"@;
    assert(changed == markdown::with_section(s, section, line));
    let new = first_line(s, section);
    let end = new + line.len();
    assert(changed.subrange(new, end) =~= line);
    assert(changed[new - 1] == '\n');
    assert(changed[end] == '\n');
    if base.len() > 0 {
        assert(changed[base.len() as int] == gap[0]);
    }
}

/// What stands before a new section has the same items.
proof fn lemma_items_before(s: Seq<char>, changed: Seq<char>, a: int, start: int)
    requires
        0 <= a <= s.len() <= usize::MAX,
        a <= start <= changed.len(),
        changed.take(a) == s.take(a),
        a > 0 ==> !text::in_class(CharClass::LineEnd, s[a - 1]),
        a > 0 ==> comments::ends_line(s.skip(a)) && changed[a] == '\n' && a < changed.len(),
        edits::all_in(s.subrange(a, s.len() as int), CharClass::LineEnd),
        edits::all_in(changed.subrange(a, start), CharClass::LineEnd),
        edits::is_line_break(changed, start),
        takes_alike(s, changed, 0, a, 0),
    ensures
        boxes_between(s, 0, s.len() as int) == boxes_between(s, 0, a),
        boxes_between(changed, 0, start) == boxes_between(s, 0, a),
{
    let first = boxes_between(s, 0, a);
    lemma_then_blank(s, 0, a, s.len() as int);
    lemma_then_blank(changed, 0, a, start);
    if a > 0 {
        assert(changed.subrange(0, a) =~= changed.take(a));
        assert(s.subrange(0, a) =~= s.take(a));
        assert(changed.skip(a)[0] == '\n');
        lemma_same_boxes(s, changed, 0, a, 0, 0);
        assert(all_moved(first, 0) =~= first);
    } else {
        assert(first =~= boxes_between(changed, 0, a));
    }
}

/// A new section has the new item alone.
proof fn lemma_items_behind(changed: Seq<char>, start: int, new: int, text: Seq<char>)
    requires
        0 <= start < new - 1,
        text::line_end(changed, start) == new - 1,
        outline::atx(text::trim_start(text::line_at(changed, start), CharClass::Space)) is Some,
        changed[new - 1] == '\n',
        changed.len() == new + markdown::item_line(text).len() + 1,
        changed.subrange(new, new + markdown::item_line(text).len()) == markdown::item_line(text),
        changed[new + markdown::item_line(text).len()] == '\n',
        !text::is_blank(text),
        is_line(text),
        takes(changed, new + 3),
    ensures
        boxes_between(changed, start, changed.len() as int) == seq![
            BoxView { start: new, checked: false, text: text::trim(text) },
        ],
{
    let len = changed.len() as int;
    let behind = new - 1;
    let none = Seq::<BoxView>::empty();
    lemma_heading_is_no_box(changed, start);
    assert(boxes_between(changed, start, len) == boxes_between(changed, behind, len));
    assert(edits::is_line_break(changed, new));
    lemma_split(changed, behind, new, len);
    assert forall|k: int| 0 <= k < changed.subrange(behind, new).len() implies text::in_class(
        CharClass::LineEnd,
        #[trigger] changed.subrange(behind, new)[k],
    ) by {
        assert(changed.subrange(behind, new)[k] == changed[behind]);
    }
    lemma_no_boxes(changed, behind, new);
    lemma_new_box(changed, new, text);
    let added = BoxView { start: new, checked: false, text: text::trim(text) };
    assert(boxes_between(changed, len, len) =~= none);
    assert(boxes_between(changed, new, len) =~= seq![added]);
    assert(none + seq![added] =~= seq![added]);
}

/// The heading of a new section is one.
proof fn lemma_heading_read(changed: Seq<char>, start: int, title: Seq<char>)
    requires
        0 <= start < changed.len(),
        edits::line_core(changed, start) == "## "@ + title,
        outline::atx("## "@ + title) is Some,
    ensures
        outline::atx(text::trim_start(text::line_at(changed, start), CharClass::Space)) is Some,
{
    let heading = "## "@ + title;
    reveal_strlit("## ");
    edits::lemma_core_heading(changed, start);
    assert(heading[0] == '#');
    text::lemma_lead(heading, CharClass::Space, 0);
    assert(text::trim_start(heading, CharClass::Space) =~= heading);
}

/// The items of a body with a new item in a new section.
proof fn lemma_section_boxes(s: Seq<char>, section: Seq<char>, text: Seq<char>)
    requires
        s.len() <= usize::MAX,
        markdown::title_check(section) is Ok,
        !text::is_blank(text),
        is_line(text),
        comments::ends_line(s.skip(text::trim_end(s, CharClass::LineEnd).len() as int)),
        is_read_with_section(s, section, text),
    ensures
        ({
            let changed = markdown::with_section(s, section, markdown::item_line(text));
            let a = text::trim_end(s, CharClass::LineEnd).len() as int;
            let added = BoxView {
                start: first_line(s, section),
                checked: false,
                text: text::trim(text),
            };
            &&& boxes_of(markdown::tasks_in(s, markdown::marks(s))) == boxes_between(s, 0, a)
            &&& boxes_of(markdown::tasks_in(changed, markdown::marks(changed))) == boxes_between(
                s,
                0,
                a,
            ).push(added)
        }),
{
    let line = markdown::item_line(text);
    let changed = markdown::with_section(s, section, line);
    let a = text::trim_end(s, CharClass::LineEnd).len() as int;
    let len = changed.len() as int;
    let start = edits::new_start(s);
    let new = first_line(s, section);
    let none = Seq::<BoxView>::empty();
    assert(boxes_between(s, 0, s.len() as int) == boxes_between(s, 0, a) && boxes_between(
        changed,
        0,
        start,
    ) == boxes_between(s, 0, a)) by {
        edits::lemma_adding(s, section, line);
        lemma_section_text(s, section, text);
        text::lemma_trail_is(s, CharClass::LineEnd);
        edits::lemma_ends_of_trimmed(s, CharClass::LineEnd);
        lemma_items_before(s, changed, a, start);
    }
    let added = BoxView { start: new, checked: false, text: text::trim(text) };
    assert(boxes_between(changed, start, len) == seq![added]) by {
        edits::lemma_adding(s, section, line);
        lemma_section_text(s, section, text);
        lemma_heading_read(changed, start, text::trim(section));
        lemma_items_behind(changed, start, new, text);
    }
    assert(edits::is_line_break(changed, start) && 0 <= start <= len) by {
        edits::lemma_adding(s, section, line);
    }
    lemma_split(changed, 0, start, len);
    lemma_boxes(s, 0, 1, Seq::empty());
    lemma_boxes(changed, 0, 1, Seq::empty());
    assert(boxes_of(Seq::empty()) =~= none);
    let first = boxes_between(s, 0, a);
    assert(none + first =~= first);
    assert(none + (first + seq![added]) =~= first.push(added));
}

/// No heading stands in the content of a new section that is an item.
proof fn lemma_no_inner(s: Seq<char>, section: Seq<char>, text: Seq<char>)
    requires
        s.len() <= usize::MAX,
        markdown::title_check(section) is Ok,
        !text::is_blank(text),
        is_line(text),
        is_read_with_section(s, section, text),
    ensures
        ({
            let changed = markdown::with_section(s, section, markdown::item_line(text));
            edits::headings_between(
                changed,
                markdown::marks(changed).headings,
                first_line(s, section) - 1,
                changed.len() as int,
            ).len() == 0
        }),
{
    let line = markdown::item_line(text);
    let changed = markdown::with_section(s, section, line);
    let spans = markdown::marks(changed).headings;
    let new = first_line(s, section);
    let behind = new - 1;
    let len = changed.len() as int;
    lemma_section_text(s, section, text);
    edits::lemma_adding(s, section, line);
    text::lemma_line_end(changed, edits::new_start(s));
    assert(edits::is_line_break(changed, new));
    edits::lemma_split(changed, spans, behind, new, len);
    assert forall|k: int| 0 <= k < changed.subrange(behind, new).len() implies text::in_class(
        CharClass::LineEnd,
        #[trigger] changed.subrange(behind, new)[k],
    ) by {
        assert(changed.subrange(behind, new)[k] == changed[behind]);
    }
    edits::lemma_no_headings(changed, spans, behind, new);
    lemma_new_box(changed, new, text);
    assert(markdown::line_heading(changed, spans, new) is None) by {
        if markdown::line_heading(changed, spans, new) is Some {
            lemma_heading_is_no_box(changed, new);
        }
    }
    assert(edits::headings_between(changed, spans, len, len).len() == 0);
    assert(edits::headings_between(changed, spans, new, len).len() == 0);
}

/// What the sections of a body with a new item in a new section are.
proof fn lemma_section_kept(s: Seq<char>, section: Seq<char>, text: Seq<char>, j: int)
    requires
        s.len() <= usize::MAX,
        markdown::title_check(section) is Ok,
        !text::is_blank(text),
        is_line(text),
        is_read_with_section(s, section, text),
        0 <= j <= markdown::sections_in(s).len(),
    ensures
        ({
            let sections = markdown::sections_in(s);
            let changed = markdown::with_section(s, section, markdown::item_line(text));
            let others = markdown::sections_in(changed);
            let n = sections.len() as int;
            let a = text::trim_end(s, CharClass::LineEnd).len() as int;
            let new = first_line(s, section);
            &&& others.len() == n + 1
            &&& j < n ==> {
                &&& others[j].title == sections[j].title
                &&& others[j].level == sections[j].level
                &&& forall|at: int|
                    at < a ==> outline::holds(others[j], at) == #[trigger] outline::holds(
                        sections[j],
                        at,
                    )
                &&& outline::holds(others[j], new) ==> others[j].level < 2
            }
            &&& j == n ==> {
                &&& others[j].title == text::trim(section)
                &&& others[j].level == 2
                &&& outline::holds(others[j], new)
                &&& forall|at: int| at < a ==> !#[trigger] outline::holds(others[j], at)
            }
        }),
{
    let line = markdown::item_line(text);
    let changed = markdown::with_section(s, section, line);
    let a = text::trim_end(s, CharClass::LineEnd).len() as int;
    let p = text::line_start(s, a);
    let h = properties::headings_in(s);
    let g = properties::headings_in(changed);
    let n = h.len() as int;
    edits::lemma_adding(s, section, line);
    edits::lemma_added(s, section, line);
    edits::lemma_edit(s, changed, p, a, s.len() as int);
    lemma_no_inner(s, section, text);
    lemma_section_text(s, section, text);
    let first = edits::first_part(s, p, a);
    let again = edits::first_part(changed, p, a);
    assert(g.len() == n + 1);
    assert(g[n] == edits::new_heading(s, section));
    if j < n {
        let level = h[j].level;
        let m = edits::find_peer(h, j + 1, level);
        edits::lemma_peer(h, j + 1, level, s.len() as usize, m);
        assert(g[j] == again[j] && edits::is_kept(first[j], again[j]));
        assert forall|k: int| j + 1 <= k < m implies (#[trigger] g[k]).level > level by {
            assert(g[k] == again[k] && edits::is_kept(first[k], again[k]));
            assert(h[k].level > level);
        }
        if m < n {
            assert(g[m] == again[m] && edits::is_kept(first[m], again[m]));
            edits::lemma_peer(g, j + 1, level, changed.len() as usize, m);
        } else if level >= 2 {
            edits::lemma_peer(g, j + 1, level, changed.len() as usize, n);
        } else {
            edits::lemma_peer(g, j + 1, level, changed.len() as usize, n + 1);
        }
    } else {
        edits::lemma_peer(g, n + 1, 2, changed.len() as usize, n + 1);
    }
}

/// An item that is added to a section that there was not is read back: the sections are those that there
/// were and the new one, and the checklist items are those that there were, in sections of the same
/// titles, and the new one, open, in the new section.
pub proof fn an_item_in_a_new_section_is_read_back(
    s: Seq<char>,
    section: Seq<char>,
    text: Seq<char>,
)
    requires
        s.len() <= usize::MAX,
        outline::only_titled(markdown::sections_in(s), text::trim(section)) == Ok::<
            Option<int>,
            nat,
        >(None),
        markdown::item_added(s, section, text) is Ok,
        is_line(text),
        comments::ends_line(s.skip(text::trim_end(s, CharClass::LineEnd).len() as int)),
        is_read_with_section(s, section, text),
    ensures
        ({
            let changed = markdown::item_added(s, section, text)->Ok_0;
            let sections = markdown::sections_in(s);
            let items = markdown::items_in(s);
            let others = markdown::items_in(changed);
            &&& markdown::sections_in(changed).len() == sections.len() + 1
            &&& markdown::sections_in(changed).last().title == text::trim(section)
            &&& markdown::sections_in(changed).last().level == 2
            &&& forall|j: int|
                0 <= j < sections.len() ==> (#[trigger] markdown::sections_in(changed)[j]).title
                    == sections[j].title && markdown::sections_in(changed)[j].level
                    == sections[j].level
            &&& others.len() == items.len() + 1
            &&& others.last().section == Some(text::trim(section))
            &&& others.last().text == text::trim(text)
            &&& !others.last().checked
            &&& forall|j: int|
                0 <= j < items.len() ==> same_item(#[trigger] items[j], others[j])
        }),
{
    let changed = markdown::with_section(s, section, markdown::item_line(text));
    let sections = markdown::sections_in(s);
    let wider = markdown::sections_in(changed);
    let items = markdown::items_in(s);
    let others = markdown::items_in(changed);
    let a = text::trim_end(s, CharClass::LineEnd).len() as int;
    let n = sections.len() as int;
    let new = first_line(s, section);
    assert(markdown::item_added(s, section, text)->Ok_0 == changed);
    let boxes = boxes_of(markdown::tasks_in(s, markdown::marks(s)));
    let again = boxes_of(markdown::tasks_in(changed, markdown::marks(changed)));
    lemma_section_boxes(s, section, text);
    lemma_section_kept(s, section, text, n);
    lemma_between(s, 0, a);
    assert forall|j: int| 0 <= j < n implies (#[trigger] wider[j]).title == sections[j].title
        && wider[j].level == sections[j].level by {
        lemma_section_kept(s, section, text, j);
    }
    assert(boxes.len() == items.len() && again.len() == others.len());
    assert forall|j: int| 0 <= j < items.len() implies same_item(#[trigger] items[j], others[j]) by {
        assert(again[j] == boxes[j]);
        lemma_item(s, j);
        lemma_item(changed, j);
        lemma_first_place(s, section, text, boxes[j].start);
    }
    lemma_item(changed, items.len() as int);
    assert(again[items.len() as int].start == new);
    outline::lemma_deepest(wider, new, wider.len());
    assert forall|k: int| 0 <= k < n && outline::holds(#[trigger] wider[k], new) implies wider[k].level
        < 2 by {
        lemma_section_kept(s, section, text, k);
    }
    assert(outline::holds(wider[n], new));
}

/// The section of what stands before a new section is the same.
proof fn lemma_first_place(s: Seq<char>, section: Seq<char>, text: Seq<char>, at: int)
    requires
        s.len() <= usize::MAX,
        markdown::title_check(section) is Ok,
        !text::is_blank(text),
        is_line(text),
        is_read_with_section(s, section, text),
        at < text::trim_end(s, CharClass::LineEnd).len(),
    ensures
        ({
            let sections = markdown::sections_in(s);
            let changed = markdown::with_section(s, section, markdown::item_line(text));
            let others = markdown::sections_in(changed);
            let held = outline::deepest(sections, at, sections.len());
            &&& outline::deepest(others, at, others.len()) == held
            &&& held matches Some(k) ==> others[k].title == sections[k].title
        }),
{
    let sections = markdown::sections_in(s);
    let changed = markdown::with_section(s, section, markdown::item_line(text));
    let others = markdown::sections_in(changed);
    let n = sections.len();
    lemma_section_kept(s, section, text, n as int);
    let less = others.take(n as int);
    assert forall|j: int| 0 <= j < n implies (#[trigger] less[j]).level == sections[j].level
        && outline::holds(less[j], at) == outline::holds(sections[j], at) by {
        lemma_section_kept(s, section, text, j);
    }
    lemma_same_deepest(sections, less, at, at, n);
    lemma_deepest_of(others, less, at, n);
    assert(!outline::holds(others[n as int], at));
    outline::lemma_deepest(sections, at, n);
    if let Some(k) = outline::deepest(sections, at, n) {
        lemma_section_kept(s, section, text, k);
    }
}

/// The deepest of the first sections rests on them alone.
proof fn lemma_deepest_of(others: Seq<RegionView>, less: Seq<RegionView>, at: int, n: nat)
    requires
        n <= less.len() <= others.len(),
        less == others.take(less.len() as int),
    ensures
        outline::deepest(others, at, n) == outline::deepest(less, at, n),
    decreases n,
{
    if n > 0 {
        lemma_deepest_of(others, less, at, (n - 1) as nat);
        outline::lemma_deepest(less, at, (n - 1) as nat);
        assert(less[n - 1] == others[n - 1]);
        if let Some(best) = outline::deepest(less, at, (n - 1) as nat) {
            assert(less[best] == others[best]);
        }
    }
}

} // verus!
