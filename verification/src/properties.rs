//! What holds of the sections and the checklist items of every body.

use crate::comments;
use crate::document;
use crate::error;
use crate::error::{ErrorKind, Failure};
use crate::markdown;
use crate::markdown::{ItemView, MarksView, TaskView};
use crate::outline;
use crate::outline::{HeadingView, RegionView, Span};
use crate::outside;
use crate::outside::MarkKind;
use crate::source;
use crate::text;
use crate::text::CharClass;
use vstd::prelude::*;

verus! {

/// Whether a heading stands in a line of its own, in which one of the constructs begins.
pub open spec fn is_heading(s: Seq<char>, spans: Seq<Span>, heading: HeadingView) -> bool {
    &&& heading.start < s.len()
    &&& text::begins_line(s, heading.start as int)
    &&& heading.content_start == text::line_end(s, heading.start as int)
    &&& outline::atx(
        text::trim_start(text::line_at(s, heading.start as int), CharClass::Space),
    ) is Some
    &&& markdown::begins_in_line(s, spans, heading.start as int)
}

/// Whether all headings are such, and stand in order.
pub open spec fn are_headings(s: Seq<char>, spans: Seq<Span>, headings: Seq<HeadingView>) -> bool {
    &&& outline::in_order(headings, s.len() as usize)
    &&& forall|i: int| 0 <= i < headings.len() ==> is_heading(s, spans, #[trigger] headings[i])
}

proof fn lemma_line_headings(s: Seq<char>, spans: Seq<Span>, at: int, read: Seq<HeadingView>)
    requires
        0 <= at <= s.len() <= usize::MAX,
        at < s.len() ==> text::begins_line(s, at),
        are_headings(s, spans, read),
        forall|i: int| 0 <= i < read.len() ==> (#[trigger] read[i]).content_start <= at,
    ensures
        are_headings(s, spans, markdown::line_headings(s, spans, at, read)),
    decreases s.len() - at,
{
    if at < s.len() {
        let end = text::line_end(s, at);
        text::lemma_line_end(s, at);
        document::lemma_line_end_begins(s, at);
        match markdown::line_heading(s, spans, at) {
            Some(heading) => {
                assert(is_heading(s, spans, heading));
                lemma_line_headings(s, spans, end, read.push(heading));
            },
            None => {
                lemma_line_headings(s, spans, end, read);
            },
        }
    }
}

/// The headings of a body.
pub open spec fn headings_in(s: Seq<char>) -> Seq<HeadingView> {
    markdown::line_headings(s, markdown::marks(s).headings, 0, Seq::empty())
}

/// The headings of a body stand in lines of their own.
pub proof fn lemma_headings_in(s: Seq<char>)
    requires
        s.len() <= usize::MAX,
    ensures
        are_headings(s, markdown::marks(s).headings, headings_in(s)),
{
    lemma_line_headings(s, markdown::marks(s).headings, 0, Seq::empty());
}

proof fn lemma_peer_is(headings: Seq<HeadingView>, from: int, level: u8, len: usize)
    requires
        0 <= from,
    ensures
        ({
            let end = outline::next_peer(headings, from, level, len);
            end == len || exists|k: int| from <= k < headings.len() && (#[trigger] headings[k]).start
                == end
        }),
    decreases headings.len() - from,
{
    if from < headings.len() {
        if headings[from].level > level {
            lemma_peer_is(headings, from + 1, level, len);
        } else {
            assert(headings[from].start == outline::next_peer(headings, from, level, len));
        }
    }
}

/// A line that is a heading is not empty, and begins with no line feed.
pub proof fn lemma_heading_line(s: Seq<char>, spans: Seq<Span>, heading: HeadingView)
    requires
        s.len() <= usize::MAX,
        is_heading(s, spans, heading),
    ensures
        s[heading.start as int] != '\n',
        s[heading.start as int] != '<',
        text::is_space(s[heading.start as int]) || s[heading.start as int] == '#',
{
    let at = heading.start as int;
    let end = text::line_end(s, at);
    let line = s.subrange(at, end);
    let held = text::line_text(line);
    text::lemma_line_end(s, at);
    text::lemma_lead_is(held, CharClass::Space);
    let trimmed = text::trim_start(held, CharClass::Space);
    assert(trimmed.len() > 0 && trimmed[0] == '#');
    assert(line[0] == s[at]);
    assert(held.len() > 0);
    assert(held[0] == line[0]);
    if s[at] == '\n' {
        assert(line.len() == 1);
        assert(line =~= seq!['\n']);
        assert(line.subrange(0, 1) =~= line);
        assert(text::finishes(line, seq!['\n']));
    }
}

/// Each section of a body begins a line, with a heading. Its content begins with the next line, and it
/// ends with the body or where another section begins.
pub proof fn sections_are_lines(s: Seq<char>, i: int)
    requires
        s.len() <= usize::MAX,
        0 <= i < markdown::sections_in(s).len(),
    ensures
        ({
            let section = markdown::sections_in(s)[i];
            &&& text::begins_line(s, section.start as int)
            &&& section.start < section.content_start <= section.end <= s.len()
            &&& section.content_start == text::line_end(s, section.start as int)
            &&& section.end == s.len() || exists|k: int|
                i < k < markdown::sections_in(s).len() && (#[trigger] markdown::sections_in(
                    s,
                )[k]).start == section.end
        }),
{
    let headings = headings_in(s);
    let sections = markdown::sections_in(s);
    lemma_headings_in(s);
    assert(is_heading(s, markdown::marks(s).headings, headings[i]));
    markdown::lemma_peer_behind(headings, i, i + 1, s.len() as usize);
    lemma_peer_is(headings, i + 1, headings[i].level, s.len() as usize);
    if sections[i].end != s.len() {
        let k = choose|k: int|
            i + 1 <= k < headings.len() && (#[trigger] headings[k]).start == sections[i].end;
        assert(sections[k].start == sections[i].end);
    }
}

/// No section of a body begins in one of its comments.
pub proof fn sections_begin_outside_the_comments(s: Seq<char>, i: int)
    requires
        source::fits(s),
        0 <= i < markdown::sections_in(s).len(),
    ensures
        document::document(s) matches Ok(document) && !outline::covered(
            document.ranges,
            markdown::sections_in(s)[i].start as int,
        ),
{
    document::lemma_fits_len(s);
    let marks = markdown::marks(s);
    let heading = headings_in(s)[i];
    lemma_headings_in(s);
    assert(is_heading(s, marks.headings, heading));
    let k = choose|k: int|
        0 <= k < marks.headings.len() && text::line_start(
            s,
            (#[trigger] marks.headings[k]).start as int,
        ) == heading.start;
    let at = marks.headings[k].start as int;
    assert(document::document(s) is Ok);
    let ranges = document::document(s)->Ok_0.ranges;
    let found = document::found_outside(s, ranges, MarkKind::Heading)->0;
    document::lemma_located_lie_in(
        s,
        outside::commonmark(outline::masked(s, ranges)),
        MarkKind::Heading,
    );
    lemma_uncovered(found, ranges, found.len(), s.len() as int);
    assert(outline::lies_in(marks.headings[k], s.len() as int));
    document::lemma_ranges_close(s);
    lemma_heading_line(s, marks.headings, heading);
    text::lemma_line_start(s, at);
    if outline::covered(ranges, heading.start as int) {
        let j = choose|j: int|
            0 <= j < ranges.len() && (#[trigger] ranges[j]).start <= heading.start < ranges[j].end;
        assert(ranges[j].end <= at);
        assert(s[ranges[j].end - 1] != '\n');
        assert(at == s.len());
    }
}

proof fn lemma_uncovered(spans: Seq<Span>, excluded: Seq<Span>, n: nat, len: int)
    requires
        n <= spans.len(),
        outline::all_lie_in(spans, len),
    ensures
        outline::all_lie_in(markdown::uncovered(spans, excluded, n), len),
        forall|k: int|
            0 <= k < markdown::uncovered(spans, excluded, n).len() ==> !outline::covered(
                excluded,
                (#[trigger] markdown::uncovered(spans, excluded, n)[k]).start as int,
            ),
    decreases n,
{
    if n > 0 {
        lemma_uncovered(spans, excluded, (n - 1) as nat, len);
        assert(outline::lies_in(spans[n - 1], len));
    }
}

/// A body with the content of a section replaced is the body up to the content, the new content
/// between line feeds, and where something follows, a line feed and all of that. A body in which a
/// carriage return begins the next heading line is left out: that one is dropped.
pub proof fn replacing_keeps_every_other_byte(s: Seq<char>, i: int, content: Seq<char>)
    requires
        s.len() <= usize::MAX,
        0 <= i < markdown::sections_in(s).len(),
        markdown::sections_in(s)[i].end < s.len() ==> s[markdown::sections_in(s)[i].end as int]
            != '\r',
    ensures
        ({
            let section = markdown::sections_in(s)[i];
            markdown::replaced(s, section, content) == s.take(section.content_start as int)
                + markdown::padded(content) + if section.end < s.len() {
                "\n"@ + s.skip(section.end as int)
            } else {
                Seq::empty()
            }
        }),
{
    let section = markdown::sections_in(s)[i];
    let start = section.content_start as int;
    let end = section.end as int;
    let head = s.take(start);
    let body = head + markdown::padded(content) + markdown::rest_behind(s, end);
    reveal_strlit("\n");
    let feed = "\n"@;
    assert(feed =~= seq!['\n']);
    sections_are_lines(s, i);
    text::lemma_line_end(s, section.start as int);
    if end < s.len() {
        let rest = s.skip(end);
        lemma_headings_in(s);
        let headings = headings_in(s);
        lemma_peer_is(headings, i + 1, headings[i].level, s.len() as usize);
        let k = choose|k: int|
            i + 1 <= k < headings.len() && (#[trigger] headings[k]).start == section.end;
        assert(is_heading(s, markdown::marks(s).headings, headings[k]));
        lemma_heading_line(s, markdown::marks(s).headings, headings[k]);
        assert(rest[0] == s[end]);
        text::lemma_lead(rest, CharClass::LineEnd, 0);
        assert(text::trim_start(rest, CharClass::LineEnd) =~= rest);
        assert(body.last() == s.last());
    } else {
        assert(text::trim_start(s.skip(end), CharClass::LineEnd) =~= Seq::<char>::empty());
        if text::is_blank(content) {
            assert(body =~= head);
            assert(head.last() == s[start - 1]);
        } else {
            assert(body.last() == '\n');
        }
    }
    if text::finishes(s, feed) {
        assert(s.last() == s.subrange(s.len() - 1, s.len() as int)[0]);
        assert(body.subrange(body.len() - 1, body.len() as int) =~= feed);
    }
    assert(markdown::replaced(s, section, content) == body);
}

/// Removing a section keeps what stands before it and what stands behind it, up to the line endings
/// that set it off, with a blank line between the two.
pub proof fn removing_a_section_keeps_the_others(s: Seq<char>, region: RegionView)
    requires
        region.start <= region.end <= s.len(),
    ensures
        ({
            let before = text::trim_end(s.take(region.start as int), CharClass::LineEnd);
            let after = text::trim_start(s.skip(region.end as int), CharClass::LineEnd);
            let kept = if before.len() > 0 && after.len() > 0 {
                before + "\n\n"@ + after
            } else {
                before + after
            };
            markdown::without_region(s, region) == if kept.len() > 0 && text::finishes(s, "\n"@)
                && !text::finishes(kept, "\n"@) {
                kept + "\n"@
            } else {
                kept
            }
        }),
{
    let before = text::trim_end(s.take(region.start as int), CharClass::LineEnd);
    let after = text::trim_start(s.skip(region.end as int), CharClass::LineEnd);
    assert(before + Seq::<char>::empty() + after =~= before + after);
}

/// Whether an item is in a line of its own, with the state character at its place there, and one of
/// the task-list markers is its checkbox.
pub open spec fn is_read(s: Seq<char>, marks: MarksView, task: TaskView) -> bool {
    &&& markdown::is_placed(s, task)
    &&& text::begins_line(s, task.line.start as int)
    &&& task.line.end == text::line_end(s, task.line.start as int)
    &&& markdown::state_index(
        text::line_at(s, task.line.start as int),
        task.line.start as int,
    ) == Some(task.at)
    &&& markdown::is_task(s, marks.tasks, marks.protected, task.at)
    &&& task.number >= 1
    &&& text::trim(task.text) == task.text
}

/// Whether all items are such, and stand in order.
pub open spec fn are_read(s: Seq<char>, marks: MarksView, tasks: Seq<TaskView>) -> bool {
    &&& forall|i: int| 0 <= i < tasks.len() ==> is_read(s, marks, #[trigger] tasks[i])
    &&& forall|i: int, j: int|
        0 <= i < j < tasks.len() ==> (#[trigger] tasks[i]).number < (#[trigger] tasks[j]).number
            && tasks[i].line.end <= tasks[j].line.start
}

/// A text without its surrounding white space has none.
pub proof fn lemma_trim_again(s: Seq<char>)
    ensures
        text::trim(text::trim(s)) == text::trim(s),
{
    let first = text::trim_start(s, CharClass::Space);
    let both = text::trim(s);
    text::lemma_lead_is(s, CharClass::Space);
    text::lemma_trail_is(first, CharClass::Space);
    if both.len() > 0 {
        assert(both[0] == first[0] && first[0] == s[text::lead(s, CharClass::Space) as int]);
        assert(both.last() == first[first.len() - text::trail(first, CharClass::Space) - 1]);
    }
    text::lemma_lead(both, CharClass::Space, 0);
    text::lemma_trail(both, CharClass::Space, 0);
    assert(text::trim_start(both, CharClass::Space) =~= both);
    assert(text::trim_end(both, CharClass::Space) =~= both);
}

proof fn lemma_tasks_read(
    s: Seq<char>,
    marks: MarksView,
    at: int,
    number: nat,
    read: Seq<TaskView>,
)
    requires
        0 <= at <= s.len() <= usize::MAX,
        at < s.len() ==> text::begins_line(s, at),
        number >= 1,
        are_read(s, marks, read),
        forall|i: int|
            0 <= i < read.len() ==> (#[trigger] read[i]).line.end <= at && read[i].number < number,
    ensures
        are_read(s, marks, markdown::tasks_from(s, marks, at, number, read)),
    decreases s.len() - at,
{
    if at < s.len() {
        let end = text::line_end(s, at);
        text::lemma_line_end(s, at);
        document::lemma_line_end_begins(s, at);
        markdown::lemma_line_task(s, marks, at, number);
        match markdown::line_task(s, marks, at, number) {
            Some(task) => {
                let line = text::trim_start(text::line_at(s, at), CharClass::Space);
                let found = markdown::checkbox(line)->0;
                let open = found.at - 1;
                lemma_trim_again(line.skip(open + 3));
                assert(is_read(s, marks, task));
                lemma_tasks_read(s, marks, end, number + 1, read.push(task));
            },
            None => {
                lemma_tasks_read(s, marks, end, number + 1, read);
            },
        }
    }
}

proof fn lemma_tasks_in(s: Seq<char>, marks: MarksView)
    requires
        s.len() <= usize::MAX,
    ensures
        are_read(s, marks, markdown::tasks_in(s, marks)),
{
    lemma_tasks_read(s, marks, 0, 1, Seq::empty());
}

/// The items of a body are numbered through from one, in the order of their lines. The numbers of the
/// lines, from one, grow, and no white space surrounds the texts.
pub proof fn items_are_counted(s: Seq<char>)
    requires
        s.len() <= usize::MAX,
    ensures
        forall|i: int|
            0 <= i < markdown::items_in(s).len() ==> {
                let item = #[trigger] markdown::items_in(s)[i];
                &&& item.global_index == i + 1
                &&& item.line_number >= 1
                &&& text::trim(item.text) == item.text
                &&& text::begins_line(s, item.line.start as int)
                &&& item.line.end == text::line_end(s, item.line.start as int)
            },
        forall|i: int, j: int|
            0 <= i < j < markdown::items_in(s).len() ==> (#[trigger] markdown::items_in(
                s,
            )[i]).line_number < (#[trigger] markdown::items_in(s)[j]).line_number
                && markdown::items_in(s)[i].line.end <= markdown::items_in(s)[j].line.start,
{
    let marks = markdown::marks(s);
    let tasks = markdown::tasks_in(s, marks);
    lemma_tasks_in(s, marks);
    assert forall|i: int| 0 <= i < markdown::items_in(s).len() implies {
        let item = #[trigger] markdown::items_in(s)[i];
        &&& item.global_index == i + 1
        &&& item.line_number >= 1
        &&& text::trim(item.text) == item.text
        &&& text::begins_line(s, item.line.start as int)
        &&& item.line.end == text::line_end(s, item.line.start as int)
    } by {
        assert(is_read(s, marks, tasks[i]));
    }
    assert forall|i: int, j: int| 0 <= i < j < markdown::items_in(s).len() implies (
    #[trigger] markdown::items_in(s)[i]).line_number < (#[trigger] markdown::items_in(
        s,
    )[j]).line_number && markdown::items_in(s)[i].line.end <= markdown::items_in(s)[j].line.start by {
        assert(tasks[i].number < tasks[j].number);
    }
}

/// An item is called by the title of the deepest section that holds its line, or by none where no
/// section does, and is counted under that heading: its number there is one more than that of the
/// items before it under the same heading.
pub proof fn items_are_counted_under_their_heading(s: Seq<char>, i: int)
    requires
        0 <= i < markdown::items_in(s).len(),
    ensures
        ({
            let item = markdown::items_in(s)[i];
            let sections = markdown::sections_in(s);
            let tasks = markdown::tasks_in(s, markdown::marks(s));
            let section = markdown::section_index(sections, tasks[i]);
            &&& match section {
                Some(k) => 0 <= k < sections.len() && item.section == Some(sections[k].title)
                    && document::is_innermost(sections, sections[k], item.line.start as int),
                None => item.section is None && forall|k: int|
                    0 <= k < sections.len() ==> !outline::holds(
                        #[trigger] sections[k],
                        item.line.start as int,
                    ),
            }
            &&& item.index == 1 + markdown::count_in(sections, tasks, section, i as nat)
        }),
{
    let sections = markdown::sections_in(s);
    let tasks = markdown::tasks_in(s, markdown::marks(s));
    outline::lemma_deepest(sections, tasks[i].line.start as int, sections.len());
}

/// An index in a line begins where the line does.
proof fn lemma_same_line(s: Seq<char>, from: int, at: int)
    requires
        0 <= from <= at <= s.len(),
        text::begins_line(s, from),
        forall|i: int| from <= i < at ==> #[trigger] s[i] != '\n',
    ensures
        text::line_start(s, at) == from,
    decreases at - from,
{
    if from < at {
        assert(s[at - 1] != '\n');
        lemma_same_line(s, from, at - 1);
    }
}

/// A checkbox that a task-list marker stands for is in the line of the marker.
proof fn lemma_marker_line(s: Seq<char>, task: Span, protected: Option<Span>, line: Span, at: int)
    requires
        s.len() <= usize::MAX,
        markdown::marks_box(s, task, protected, at),
        text::begins_line(s, line.start as int),
        line.end == text::line_end(s, line.start as int),
        line.start <= at < line.end <= s.len(),
    ensures
        line.start <= task.start < line.end,
{
    let start = text::line_start(s, task.start as int);
    let end = text::next_index(s, '\n', task.start as int);
    let held = s.subrange(start, end);
    text::lemma_line_start(s, task.start as int);
    text::lemma_next_index_is(s, '\n', task.start as int);
    let trimmed = text::trim_start(held, CharClass::Space);
    text::lemma_lead_is(held, CharClass::Space);
    markdown::lemma_checkbox(trimmed);
    assert(start <= at < end);
    text::lemma_line_end(s, line.start as int);
    lemma_same_line(s, line.start as int, at);
    assert forall|i: int| start <= i < at implies #[trigger] s[i] != '\n' by {}
    lemma_same_line(s, start, at);
    assert(start == line.start);
    if task.start >= line.end {
        assert(s[line.end - 1] != '\n');
    }
}

/// No item of a body is in the section of the registry: the items are those outside the managed
/// comments.
pub proof fn items_are_outside_the_registry(s: Seq<char>, i: int)
    requires
        source::fits(s),
        0 <= i < markdown::items_in(s).len(),
    ensures
        match comments::protected(s) {
            Ok(Some(span)) => !markdown::overlap(
                markdown::items_in(s)[i].line.start as int,
                markdown::items_in(s)[i].line.end as int,
                span,
            ),
            Ok(None) => true,
            Err(_) => false,
        },
{
    let marks = markdown::marks(s);
    let tasks = markdown::tasks_in(s, marks);
    let task = tasks[i];
    document::lemma_fits_len(s);
    lemma_tasks_in(s, marks);
    assert(is_read(s, marks, task));
    let k = choose|k: int|
        0 <= k < marks.tasks.len() && markdown::marks_box(
            s,
            #[trigger] marks.tasks[k],
            marks.protected,
            task.at,
        );
    let marker = marks.tasks[k];
    lemma_marker_line(s, marker, marks.protected, task.line, task.at);
    assert(document::document(s) is Ok);
    if let Some(span) = marks.protected {
        let sections = document::structural_sections(s, document::document(s)->Ok_0.ranges)->0;
        document::registry_is_a_section(s);
        document::sections_are_outside_the_comments(s);
        let section = document::document(s)->Ok_0.registry->0.section;
        let n = choose|n: int| 0 <= n < sections.len() && sections[n] == section;
        assert(sections[n] == section);
        text::lemma_line_end(s, task.line.start as int);
        text::lemma_line_start(s, span.start as int);
        if marker.start < span.start {
            assert(s[span.start - 1] == '\n');
            assert(task.line.end <= span.start);
        } else {
            assert(span.end <= marker.start);
            if span.end < s.len() {
                text::lemma_line_start(s, span.end as int);
            }
            if span.end > task.line.start {
                assert(s[span.end - 1] == '\n');
            }
        }
    }
}

/// A number names an item just where there are so many: none of the items is refused.
pub proof fn items_are_found_by_number(s: Seq<char>, number: nat)
    requires
        source::fits(s),
    ensures
        markdown::item_numbered(s, number) == if 1 <= number <= markdown::items_in(s).len() {
            Ok::<ItemView, Failure>(markdown::items_in(s)[number - 1])
        } else {
            Err(error::about(ErrorKind::ItemNotFound, text::decimal(number)))
        },
{
    if 1 <= number <= markdown::items_in(s).len() {
        items_are_outside_the_registry(s, number - 1);
    }
}

proof fn lemma_first_item(items: Seq<ItemView>, section: Seq<char>, index: nat, i: int)
    requires
        0 <= i,
    ensures
        match markdown::first_item(items, section, index, i) {
            Some(k) => i <= k < items.len() && markdown::is_item(items[k], section, index),
            None => forall|k: int|
                i <= k < items.len() ==> !markdown::is_item(#[trigger] items[k], section, index),
        },
    decreases items.len() - i,
{
    if i < items.len() && !markdown::is_item(items[i], section, index) {
        lemma_first_item(items, section, index, i + 1);
    }
}

/// An item is found by its section and its number there just where the number is not zero, the
/// section is there once, and there is such an item. It is then the one that its number in the whole
/// body names: setting, turning over and removing it by either is the same.
pub proof fn items_are_found_in_their_section(s: Seq<char>, section: Seq<char>, index: nat)
    requires
        source::fits(s),
    ensures
        markdown::item_named(s, section, index) is Ok <==> {
            &&& index >= 1
            &&& markdown::section_named(s, section) matches Ok(Some(_))
            &&& exists|i: int|
                0 <= i < markdown::items_in(s).len() && markdown::is_item(
                    #[trigger] markdown::items_in(s)[i],
                    section,
                    index,
                )
        },
        markdown::item_named(s, section, index) matches Ok(item) ==> markdown::is_item(
            item,
            section,
            index,
        ) && markdown::item_named(s, section, index) == markdown::item_numbered(
            s,
            item.global_index,
        ),
{
    let items = markdown::items_in(s);
    lemma_first_item(items, section, index, 0);
    if let Some(i) = markdown::first_item(items, section, index, 0) {
        items_are_outside_the_registry(s, i);
        items_are_found_by_number(s, (i + 1) as nat);
        assert(markdown::is_item(items[i], section, index));
    }
}

/// Setting an item writes its state: writing it again changes nothing. Turning it over is setting it
/// to the state that it does not have, and setting it to the one that it has changes nothing, but for
/// a check mark that was a capital letter.
pub proof fn setting_again_changes_nothing(s: Seq<char>, number: nat, checked: bool)
    requires
        source::fits(s),
        1 <= number <= markdown::items_in(s).len(),
    ensures
        ({
            let item = markdown::items_in(s)[number - 1];
            let found = markdown::item_numbered(s, number);
            &&& markdown::item_set(s, found, checked) matches Ok(set) && set.update(
                item.at,
                markdown::state_char(checked),
            ) == set
            &&& markdown::item_toggled(s, found) == markdown::item_set(s, found, !item.checked)
            &&& s[item.at] != 'X' ==> markdown::item_set(s, found, item.checked) == Ok::<
                Seq<char>,
                Failure,
            >(s)
        }),
{
    let item = markdown::items_in(s)[number - 1];
    document::lemma_fits_len(s);
    items_are_found_by_number(s, number);
    markdown::items_tell_the_body(s, number - 1);
    let set = s.update(item.at, markdown::state_char(checked));
    assert(set.update(item.at, markdown::state_char(checked)) =~= set);
    if s[item.at] != 'X' {
        assert(s.update(item.at, markdown::state_char(item.checked)) =~= s);
    }
}

/// Whether a text differs from another one in at most the character at an index, which ends no line.
pub open spec fn differs_at(s: Seq<char>, changed: Seq<char>, at: int) -> bool {
    &&& 0 <= at < s.len()
    &&& changed == s.update(at, changed[at])
    &&& s[at] != '\n' && s[at] != '\r'
    &&& changed[at] != '\n' && changed[at] != '\r'
}

proof fn lemma_same_next(s: Seq<char>, changed: Seq<char>, at: int, from: int)
    requires
        differs_at(s, changed, at),
        0 <= from <= s.len(),
    ensures
        text::next_index(changed, '\n', from) == text::next_index(s, '\n', from),
        text::line_end(changed, from) == text::line_end(s, from),
{
    let end = text::next_index(s, '\n', from);
    text::lemma_next_index_is(s, '\n', from);
    text::lemma_next_index(changed, '\n', from, end);
}

proof fn lemma_same_start(s: Seq<char>, changed: Seq<char>, at: int, from: int)
    requires
        differs_at(s, changed, at),
    ensures
        text::line_start(changed, from) == text::line_start(s, from),
    decreases from,
{
    if from > 0 {
        lemma_same_start(s, changed, at, from - 1);
    }
}

/// A checkbox stays a checkbox with its text when another state is written in it.
proof fn lemma_checkbox_kept(line: Seq<char>, checked: bool)
    requires
        markdown::checkbox(line) is Some,
    ensures
        ({
            let found = markdown::checkbox(line)->0;
            let changed = line.update(found.at, markdown::state_char(checked));
            &&& 2 <= found.at < line.len() - 1
            &&& line[found.at - 1] == '[' && line[found.at + 1] == ']'
            &&& line[found.at] == ' ' || line[found.at] == 'x' || line[found.at] == 'X'
            &&& outline::atx(line) is None && outline::atx(changed) is None
            &&& !text::is_space(line[0])
            &&& markdown::checkbox(changed) == Some(
                markdown::CheckboxView { checked, ..found },
            )
        }),
{
    let found = markdown::checkbox(line)->0;
    let changed = line.update(found.at, markdown::state_char(checked));
    let end = markdown::marker_end(line)->0;
    let open = found.at - 1;
    let digits = text::lead(line, CharClass::Digit);
    let rest = line.skip(end);
    let blanks = text::lead(rest, CharClass::Blank);
    text::lemma_lead_is(line, CharClass::Digit);
    text::lemma_lead_is(rest, CharClass::Blank);
    assert(open == end + blanks);
    assert(line[open] == '[');
    if line[0] == '-' || line[0] == '*' || line[0] == '+' {
        text::lemma_lead(line, CharClass::Digit, 0);
    } else {
        assert(text::in_class(CharClass::Digit, line[0]));
    }
    assert(digits < open);
    text::lemma_lead(changed, CharClass::Digit, digits as int);
    assert(markdown::marker_end(changed) == Some(end));
    let tail = changed.skip(end);
    assert forall|i: int| 0 <= i < blanks implies text::in_class(
        CharClass::Blank,
        #[trigger] tail[i],
    ) by {
        assert(tail[i] == rest[i]);
    }
    assert(tail[blanks as int] == '[');
    text::lemma_lead(tail, CharClass::Blank, blanks as int);
    assert(changed.skip(open + 3) =~= line.skip(open + 3));
    text::lemma_lead(line, CharClass::Hash, 0);
    text::lemma_lead(changed, CharClass::Hash, 0);
}

/// The state of a checkbox in a line stays at its place when another state is written in it.
proof fn lemma_state_kept(line: Seq<char>, start: int, checked: bool)
    requires
        markdown::state_index(line, start) is Some,
    ensures
        ({
            let at = markdown::state_index(line, start)->0 - start;
            let changed = line.update(at, markdown::state_char(checked));
            let trimmed = text::trim_start(line, CharClass::Space);
            let again = text::trim_start(changed, CharClass::Space);
            &&& 2 <= at < line.len() - 1
            &&& line[at + 1] == ']'
            &&& line[at] == ' ' || line[at] == 'x' || line[at] == 'X'
            &&& markdown::state_index(changed, start) == markdown::state_index(line, start)
            &&& outline::atx(trimmed) is None && outline::atx(again) is None
            &&& markdown::checkbox(trimmed) matches Some(found) && markdown::checkbox(again)
                == Some(markdown::CheckboxView { checked, ..found })
        }),
{
    let trimmed = text::trim_start(line, CharClass::Space);
    let found = markdown::checkbox(trimmed)->0;
    let lead = text::lead(line, CharClass::Space) as int;
    let at = lead + found.at;
    let changed = line.update(at, markdown::state_char(checked));
    text::lemma_lead_is(line, CharClass::Space);
    lemma_checkbox_kept(trimmed, checked);
    assert(trimmed[found.at + 1] == line[at + 1]);
    assert(trimmed[found.at] == line[at]);
    assert(trimmed[0] == line[lead]);
    text::lemma_lead(changed, CharClass::Space, lead);
    assert(text::trim_start(changed, CharClass::Space) =~= trimmed.update(
        found.at,
        markdown::state_char(checked),
    ));
}

/// A body in which another state is written at the place of an item.
pub open spec fn rewritten(s: Seq<char>, at: int, checked: bool) -> Seq<char> {
    s.update(at, markdown::state_char(checked))
}

/// The text of a line with a checkbox is that of the line with another state written in it.
proof fn lemma_line_kept(s: Seq<char>, from: int, at: int, checked: bool)
    requires
        0 <= from < s.len() <= usize::MAX,
        differs_at(s, rewritten(s, at, checked), at),
        at < s.len() - 1,
        s[at + 1] == ']',
    ensures
        text::line_at(rewritten(s, at, checked), from) == if from <= at < text::line_end(s, from) {
            text::line_at(s, from).update(at - from, markdown::state_char(checked))
        } else {
            text::line_at(s, from)
        },
        from <= at < text::line_end(s, from) ==> at - from < text::line_at(s, from).len() - 1,
{
    let changed = rewritten(s, at, checked);
    let end = text::line_end(s, from);
    let line = s.subrange(from, end);
    let again = changed.subrange(from, end);
    text::lemma_line_end(s, from);
    lemma_same_next(s, changed, at, from);
    if from <= at < end {
        assert(again =~= line.update(at - from, markdown::state_char(checked)));
        if at + 1 >= end {
            assert(s[end - 1] == s[at]);
        }
        assert(line[at + 1 - from] == ']');
        assert(line.last() == again.last());
        lemma_finishes_one(line);
        lemma_finishes_one(again);
        lemma_finishes_two(line);
        lemma_finishes_two(again);
        assert(line[at + 1 - from] != '\r' && line[at + 1 - from] != '\n');
        assert(text::line_text(again) =~= text::line_text(line).update(
            at - from,
            markdown::state_char(checked),
        ));
    } else {
        assert(again =~= line);
    }
}

/// A line that is closed by a line feed.
pub proof fn lemma_finishes_one(line: Seq<char>)
    ensures
        text::finishes(line, seq!['\n']) == (line.len() > 0 && line.last() == '\n'),
{
    if line.len() > 0 {
        let tail = line.subrange(line.len() - 1, line.len() as int);
        if line.last() == '\n' {
            assert(tail =~= seq!['\n']);
        } else if text::finishes(line, seq!['\n']) {
            assert(tail[0] == seq!['\n'][0]);
        }
    }
}

/// A line that is closed by a carriage return and a line feed.
pub proof fn lemma_finishes_two(line: Seq<char>)
    ensures
        text::finishes(line, seq!['\r', '\n']) == (line.len() > 1 && line[line.len() - 2] == '\r'
            && line.last() == '\n'),
{
    if line.len() > 1 {
        let tail = line.subrange(line.len() - 2, line.len() as int);
        if line[line.len() - 2] == '\r' && line.last() == '\n' {
            assert(tail =~= seq!['\r', '\n']);
        } else if text::finishes(line, seq!['\r', '\n']) {
            assert(tail[0] == seq!['\r', '\n'][0]);
            assert(tail[1] == seq!['\r', '\n'][1]);
        }
    }
}

/// Whether the character at an index is the state of the checkbox in its line.
pub open spec fn is_state(s: Seq<char>, at: int) -> bool {
    let start = text::line_start(s, at);
    let line = s.subrange(start, text::next_index(s, '\n', at));
    &&& 0 <= at < s.len()
    &&& markdown::state_index(line, start) == Some(at)
}

/// The line of an index is that of another index in it.
proof fn lemma_line_of(s: Seq<char>, from: int, at: int)
    requires
        0 <= from < s.len() <= usize::MAX,
        text::line_start(s, from) <= at < text::next_index(s, '\n', from),
    ensures
        text::line_start(s, at) == text::line_start(s, from),
        text::next_index(s, '\n', at) == text::next_index(s, '\n', from),
{
    let start = text::line_start(s, from);
    let end = text::next_index(s, '\n', from);
    text::lemma_line_start(s, from);
    text::lemma_next_index_is(s, '\n', from);
    lemma_same_line(s, start, at);
    text::lemma_next_index(s, '\n', at, end);
}

proof fn lemma_item_state(s: Seq<char>, marks: MarksView, task: TaskView)
    requires
        s.len() <= usize::MAX,
        is_read(s, marks, task),
    ensures
        is_state(s, task.at),
{
    let k = choose|k: int|
        0 <= k < marks.tasks.len() && markdown::marks_box(
            s,
            #[trigger] marks.tasks[k],
            marks.protected,
            task.at,
        );
    let from = marks.tasks[k].start as int;
    let start = text::line_start(s, from);
    let line = s.subrange(start, text::next_index(s, '\n', from));
    text::lemma_line_start(s, from);
    text::lemma_next_index_is(s, '\n', from);
    lemma_state_kept(line, start, true);
    lemma_line_of(s, from, task.at);
}

/// A state stands in brackets, and another one in its place ends no line either.
proof fn lemma_state_differs(s: Seq<char>, at: int, checked: bool)
    requires
        s.len() <= usize::MAX,
        is_state(s, at),
    ensures
        differs_at(s, rewritten(s, at, checked), at),
        at < s.len() - 1,
        s[at + 1] == ']',
{
    let start = text::line_start(s, at);
    let line = s.subrange(start, text::next_index(s, '\n', at));
    text::lemma_line_start(s, at);
    text::lemma_next_index_is(s, '\n', at);
    lemma_state_kept(line, start, checked);
    assert(line[at - start] == s[at]);
    assert(line[at - start + 1] == s[at + 1]);
}

proof fn lemma_box_kept(
    s: Seq<char>,
    at: int,
    checked: bool,
    task: Span,
    protected: Option<Span>,
    state: int,
)
    requires
        s.len() <= usize::MAX,
        is_state(s, at),
    ensures
        markdown::marks_box(rewritten(s, at, checked), task, protected, state)
            == markdown::marks_box(s, task, protected, state),
{
    let changed = rewritten(s, at, checked);
    let from = task.start as int;
    lemma_state_differs(s, at, checked);
    if from < s.len() {
        let start = text::line_start(s, from);
        let end = text::next_index(s, '\n', from);
        let line = s.subrange(start, end);
        let again = changed.subrange(start, end);
        text::lemma_line_start(s, from);
        text::lemma_next_index_is(s, '\n', from);
        lemma_same_start(s, changed, at, from);
        lemma_same_next(s, changed, at, from);
        if start <= at < end {
            lemma_line_of(s, from, at);
            assert(markdown::state_index(line, start) == Some(at));
            lemma_state_kept(line, start, checked);
            assert(again =~= line.update(at - start, markdown::state_char(checked)));
        } else {
            assert(again =~= line);
        }
    }
}

proof fn lemma_task_kept(s: Seq<char>, marks: MarksView, at: int, checked: bool, state: int)
    requires
        s.len() <= usize::MAX,
        is_state(s, at),
    ensures
        markdown::is_task(rewritten(s, at, checked), marks.tasks, marks.protected, state)
            == markdown::is_task(s, marks.tasks, marks.protected, state),
{
    let changed = rewritten(s, at, checked);
    assert forall|k: int| 0 <= k < marks.tasks.len() implies markdown::marks_box(
        changed,
        #[trigger] marks.tasks[k],
        marks.protected,
        state,
    ) == markdown::marks_box(s, marks.tasks[k], marks.protected, state) by {
        lemma_box_kept(s, at, checked, marks.tasks[k], marks.protected, state);
    }
}

/// An item with another state where it is the one at an index.
pub open spec fn restated(task: TaskView, at: int, checked: bool) -> TaskView {
    if task.at == at {
        TaskView { checked, ..task }
    } else {
        task
    }
}

/// Items with another state for the one at an index.
pub open spec fn all_restated(tasks: Seq<TaskView>, at: int, checked: bool) -> Seq<TaskView> {
    Seq::new(tasks.len(), |i: int| restated(tasks[i], at, checked))
}

proof fn lemma_line_task_kept(
    s: Seq<char>,
    marks: MarksView,
    item: TaskView,
    checked: bool,
    from: int,
    number: nat,
)
    requires
        0 <= from < s.len() <= usize::MAX,
        text::begins_line(s, from),
        is_read(s, marks, item),
    ensures
        markdown::line_task(rewritten(s, item.at, checked), marks, from, number) == match (
        markdown::line_task(s, marks, from, number)) {
            Some(task) => Some(restated(task, item.at, checked)),
            None => None,
        },
        markdown::line_heading(rewritten(s, item.at, checked), marks.headings, from)
            == markdown::line_heading(s, marks.headings, from),
{
    let at = item.at;
    let changed = rewritten(s, at, checked);
    let end = text::line_end(s, from);
    let line = text::line_at(s, from);
    text::lemma_line_end(s, from);
    lemma_item_state(s, marks, item);
    lemma_state_differs(s, at, checked);
    lemma_line_kept(s, from, at, checked);
    lemma_same_next(s, changed, at, from);
    assert forall|k: int| 0 <= k < marks.headings.len() implies text::line_start(
        changed,
        (#[trigger] marks.headings[k]).start as int,
    ) == text::line_start(s, marks.headings[k].start as int) by {
        lemma_same_start(s, changed, at, marks.headings[k].start as int);
    }
    assert(markdown::begins_in_line(changed, marks.headings, from) == markdown::begins_in_line(
        s,
        marks.headings,
        from,
    ));
    if let Some(state) = markdown::state_index(line, from) {
        lemma_task_kept(s, marks, at, checked, state);
    }
    if from <= at < end {
        lemma_same_line(s, from, at);
        text::lemma_line_end(s, item.line.start as int);
        lemma_same_line(s, item.line.start as int, at);
        assert(from == item.line.start);
        lemma_state_kept(line, from, checked);
    } else {
        markdown::lemma_line_task(s, marks, from, number);
    }
}

proof fn lemma_tasks_kept(
    s: Seq<char>,
    marks: MarksView,
    item: TaskView,
    checked: bool,
    from: int,
    number: nat,
    read: Seq<TaskView>,
)
    requires
        0 <= from <= s.len() <= usize::MAX,
        from < s.len() ==> text::begins_line(s, from),
        is_read(s, marks, item),
    ensures
        markdown::tasks_from(
            rewritten(s, item.at, checked),
            marks,
            from,
            number,
            all_restated(read, item.at, checked),
        ) == all_restated(markdown::tasks_from(s, marks, from, number, read), item.at, checked),
    decreases s.len() - from,
{
    if from < s.len() {
        let changed = rewritten(s, item.at, checked);
        let end = text::line_end(s, from);
        text::lemma_line_end(s, from);
        document::lemma_line_end_begins(s, from);
        lemma_item_state(s, marks, item);
        lemma_state_differs(s, item.at, checked);
        lemma_same_next(s, changed, item.at, from);
        lemma_line_task_kept(s, marks, item, checked, from, number);
        match markdown::line_task(s, marks, from, number) {
            Some(task) => {
                assert(all_restated(read.push(task), item.at, checked) =~= all_restated(
                    read,
                    item.at,
                    checked,
                ).push(restated(task, item.at, checked)));
                lemma_tasks_kept(s, marks, item, checked, end, number + 1, read.push(task));
            },
            None => {
                lemma_tasks_kept(s, marks, item, checked, end, number + 1, read);
            },
        }
    }
}

proof fn lemma_headings_kept(
    s: Seq<char>,
    marks: MarksView,
    item: TaskView,
    checked: bool,
    from: int,
    read: Seq<HeadingView>,
)
    requires
        0 <= from <= s.len() <= usize::MAX,
        from < s.len() ==> text::begins_line(s, from),
        is_read(s, marks, item),
    ensures
        markdown::line_headings(rewritten(s, item.at, checked), marks.headings, from, read)
            == markdown::line_headings(s, marks.headings, from, read),
    decreases s.len() - from,
{
    if from < s.len() {
        let changed = rewritten(s, item.at, checked);
        let end = text::line_end(s, from);
        text::lemma_line_end(s, from);
        document::lemma_line_end_begins(s, from);
        lemma_item_state(s, marks, item);
        lemma_state_differs(s, item.at, checked);
        lemma_same_next(s, changed, item.at, from);
        lemma_line_task_kept(s, marks, item, checked, from, 1);
        match markdown::line_heading(s, marks.headings, from) {
            Some(heading) => {
                lemma_headings_kept(s, marks, item, checked, end, read.push(heading));
            },
            None => {
                lemma_headings_kept(s, marks, item, checked, end, read);
            },
        }
    }
}

/// Writing the state of an item leaves all sections and all items as they are, but for the state of
/// that item, where the Markdown parser finds the constructs of the body at the same places in it as
/// before.
pub proof fn setting_keeps_the_other_items(s: Seq<char>, i: int, checked: bool)
    requires
        s.len() <= usize::MAX,
        0 <= i < markdown::items_in(s).len(),
    ensures
        ({
            let item = markdown::items_in(s)[i];
            let marks = markdown::marks(s);
            let changed = s.update(item.at, markdown::state_char(checked));
            &&& markdown::sections_from(changed, marks.headings) == markdown::sections_in(s)
            &&& markdown::items_from(changed, marks) == markdown::items_in(s).update(
                i,
                ItemView { checked, ..item },
            )
        }),
{
    let marks = markdown::marks(s);
    let items = markdown::items_in(s);
    let tasks = markdown::tasks_in(s, marks);
    let regions = markdown::sections_in(s);
    let task = tasks[i];
    let changed = rewritten(s, task.at, checked);
    lemma_tasks_in(s, marks);
    assert(is_read(s, marks, task));
    lemma_tasks_kept(s, marks, task, checked, 0, 1, Seq::empty());
    lemma_headings_kept(s, marks, task, checked, 0, Seq::empty());
    assert(all_restated(Seq::empty(), task.at, checked) =~= Seq::<TaskView>::empty());
    let again = markdown::tasks_in(changed, marks);
    assert(again == all_restated(tasks, task.at, checked));
    assert forall|j: int| 0 <= j < tasks.len() implies markdown::item(regions, again, j) == if j
        == i {
        ItemView { checked, ..items[i] }
    } else {
        items[j]
    } by {
        assert(is_read(s, marks, tasks[j]));
        if j < i {
            assert(tasks[j].line.end <= tasks[i].line.start);
        } else if i < j {
            assert(tasks[i].line.end <= tasks[j].line.start);
        }
        lemma_count_kept(regions, tasks, task.at, checked, (j + 1) as nat, j);
    }
    assert(markdown::items_from(changed, marks) =~= items.update(
        i,
        ItemView { checked, ..items[i] },
    ));
}

proof fn lemma_count_kept(
    regions: Seq<RegionView>,
    tasks: Seq<TaskView>,
    at: int,
    checked: bool,
    n: nat,
    j: int,
)
    requires
        n <= tasks.len(),
        0 <= j < tasks.len(),
    ensures
        ({
            let again = all_restated(tasks, at, checked);
            let section = markdown::section_index(regions, tasks[j]);
            &&& markdown::section_index(regions, again[j]) == section
            &&& markdown::count_in(regions, again, section, n) == markdown::count_in(
                regions,
                tasks,
                section,
                n,
            )
        }),
    decreases n,
{
    if n > 0 {
        lemma_count_kept(regions, tasks, at, checked, (n - 1) as nat, j);
    }
}

/// Writing the state of an item changes no byte offset.
proof fn lemma_rewritten_fits(s: Seq<char>, at: int, checked: bool)
    requires
        source::fits(s),
        0 <= at < s.len(),
        s[at] == ' ' || s[at] == 'x' || s[at] == 'X',
    ensures
        source::fits(rewritten(s, at, checked)),
{
    let changed = rewritten(s, at, checked);
    let mark = markdown::state_char(checked);
    source::lemma_offset_step(s, at);
    source::lemma_offset_step(changed, at);
    assert(vstd::utf8::encode_scalar(' ' as u32).len() == 1);
    assert(vstd::utf8::encode_scalar('x' as u32).len() == 1);
    assert(vstd::utf8::encode_scalar('X' as u32).len() == 1);
    assert(changed.take(at) =~= s.take(at));
    assert(changed.skip(at + 1) =~= s.skip(at + 1));
    assert(s =~= s.take(at + 1) + s.skip(at + 1));
    assert(changed =~= changed.take(at + 1) + changed.skip(at + 1));
    source::lemma_encode_concat(s.take(at + 1), s.skip(at + 1));
    source::lemma_encode_concat(changed.take(at + 1), changed.skip(at + 1));
}

/// The items of a body in which the state of one is written, and that item found by its number there.
proof fn lemma_items_rewritten(s: Seq<char>, number: nat, checked: bool)
    requires
        source::fits(s),
        1 <= number <= markdown::items_in(s).len(),
        ({
            let item = markdown::items_in(s)[number - 1];
            markdown::marks(rewritten(s, item.at, checked)) == markdown::marks(s)
        }),
    ensures
        ({
            let item = markdown::items_in(s)[number - 1];
            let changed = rewritten(s, item.at, checked);
            &&& markdown::items_in(changed) == markdown::items_in(s).update(
                number - 1,
                ItemView { checked, ..item },
            )
            &&& markdown::item_numbered(changed, number) == Ok::<ItemView, Failure>(
                ItemView { checked, ..item },
            )
        }),
{
    let item = markdown::items_in(s)[number - 1];
    document::lemma_fits_len(s);
    markdown::items_tell_the_body(s, number - 1);
    lemma_rewritten_fits(s, item.at, checked);
    setting_keeps_the_other_items(s, number - 1, checked);
    items_are_found_by_number(rewritten(s, item.at, checked), number);
}

/// Turning over an item succeeds just where there is one with the number. It keeps the length of the
/// body. Where the Markdown parser finds the constructs of the changed body at the places of those of
/// the body, the items are the same but for the state of that one, which is the opposite, and turning
/// it over again gives back the body, but for a check mark that was a capital letter: that one comes
/// back as a small one.
pub proof fn turning_over_twice_restores(s: Seq<char>, number: nat)
    requires
        source::fits(s),
    ensures
        ({
            let items = markdown::items_in(s);
            let turned = markdown::item_toggled(s, markdown::item_numbered(s, number));
            &&& turned is Ok <==> 1 <= number <= items.len()
            &&& turned matches Ok(changed) ==> {
                let item = items[number - 1];
                &&& changed.len() == s.len()
                &&& markdown::marks(changed) == markdown::marks(s) ==> {
                    let again = markdown::item_toggled(
                        changed,
                        markdown::item_numbered(changed, number),
                    );
                    &&& markdown::items_in(changed) == items.update(
                        number - 1,
                        ItemView { checked: !item.checked, ..item },
                    )
                    &&& again == Ok::<Seq<char>, Failure>(
                        s.update(item.at, markdown::state_char(item.checked)),
                    )
                    &&& s[item.at] != 'X' ==> again == Ok::<Seq<char>, Failure>(s)
                }
            }
        }),
{
    items_are_found_by_number(s, number);
    if 1 <= number <= markdown::items_in(s).len() {
        let item = markdown::items_in(s)[number - 1];
        let changed = rewritten(s, item.at, !item.checked);
        document::lemma_fits_len(s);
        markdown::items_tell_the_body(s, number - 1);
        if markdown::marks(changed) == markdown::marks(s) {
            lemma_items_rewritten(s, number, !item.checked);
            let mark = markdown::state_char(item.checked);
            assert(changed.update(item.at, mark) =~= s.update(item.at, mark));
            if s[item.at] != 'X' {
                assert(s.update(item.at, mark) =~= s);
            }
        }
    }
}

/// Where the Markdown parser finds the constructs of a body in which an item is set at the places of
/// those of the body, that item has the state, all others are as before, and setting it again changes
/// nothing.
pub proof fn setting_twice_is_setting_once(s: Seq<char>, number: nat, checked: bool)
    requires
        source::fits(s),
    ensures
        markdown::item_set(s, markdown::item_numbered(s, number), checked) matches Ok(changed)
            ==> markdown::marks(changed) == markdown::marks(s) ==> {
            &&& markdown::items_in(changed) == markdown::items_in(s).update(
                number - 1,
                ItemView { checked, ..markdown::items_in(s)[number - 1] },
            )
            &&& markdown::item_set(changed, markdown::item_numbered(changed, number), checked)
                == Ok::<Seq<char>, Failure>(changed)
        },
{
    items_are_found_by_number(s, number);
    if 1 <= number <= markdown::items_in(s).len() {
        let item = markdown::items_in(s)[number - 1];
        let changed = rewritten(s, item.at, checked);
        document::lemma_fits_len(s);
        markdown::items_tell_the_body(s, number - 1);
        if markdown::marks(changed) == markdown::marks(s) {
            lemma_items_rewritten(s, number, checked);
            assert(changed.update(item.at, markdown::state_char(checked)) =~= changed);
        }
    }
}

} // verus!
