//! Conservative changes to sections and checklists of a Markdown body.
//!
//! CommonMark ATX headings and task-list markers count only outside code and outside comments. A
//! change touches the smallest possible range and leaves the other sections as they are.

use crate::comments;
use crate::document;
use crate::error;
use crate::error::{Error, ErrorKind, Failure};
use crate::outline;
use crate::outline::{Heading, HeadingView, Region, RegionView, Span};
use crate::outside::MarkKind;
use crate::source;
use crate::source::Source;
use crate::text;
use crate::text::CharClass;
use vstd::prelude::*;
use vstd::slice::slice_subrange;

verus! {

/// The Markdown constructs of a body outside its comments, as specifications speak of them.
#[verifier::ext_equal]
pub struct MarksView {
    /// Headings.
    pub headings: Seq<Span>,
    /// Task-list markers.
    pub tasks: Seq<Span>,
    /// The section that holds the comments.
    pub protected: Option<Span>,
}

/// The Markdown constructs of a body outside its comments.
pub struct Marks {
    pub headings: Vec<Span>,
    pub tasks: Vec<Span>,
    pub protected: Option<Span>,
}

impl View for Marks {
    type V = MarksView;

    open spec fn view(&self) -> MarksView {
        MarksView { headings: self.headings@, tasks: self.tasks@, protected: self.protected }
    }
}

impl Marks {
    /// The constructs lie in a text of the given length.
    pub open spec fn bounded(&self, len: int) -> bool {
        outline::all_lie_in(self.headings@, len) && outline::all_lie_in(self.tasks@, len)
    }
}

/// No constructs.
pub open spec fn no_marks() -> MarksView {
    MarksView { headings: Seq::empty(), tasks: Seq::empty(), protected: None }
}

/// Those of the first `n` spans that begin outside other ones.
pub open spec fn uncovered(spans: Seq<Span>, excluded: Seq<Span>, n: nat) -> Seq<Span>
    decreases n,
{
    if n == 0 || n > spans.len() {
        Seq::empty()
    } else {
        let before = uncovered(spans, excluded, (n - 1) as nat);
        if outline::covered(excluded, spans[n - 1].start as int) {
            before
        } else {
            before.push(spans[n - 1])
        }
    }
}

/// Keeps the spans that begin outside other ones.
fn keep_uncovered(spans: &Vec<Span>, excluded: &Vec<Span>, Ghost(len): Ghost<int>) -> (r: Vec<Span>)
    requires
        outline::all_lie_in(spans@, len),
    ensures
        r@ == uncovered(spans@, excluded@, spans@.len()),
        outline::all_lie_in(r@, len),
{
    let mut kept: Vec<Span> = Vec::new();
    let mut i: usize = 0;
    while i < spans.len()
        invariant
            i <= spans@.len(),
            kept@ == uncovered(spans@, excluded@, i as nat),
            outline::all_lie_in(spans@, len),
            outline::all_lie_in(kept@, len),
        decreases spans@.len() - i,
    {
        let span = spans[i];
        assert(outline::lies_in(spans@[i as int], len));
        if !outline::is_covered(excluded, span.start) {
            kept.push(span);
        }
        i += 1;
    }
    kept
}

/// The constructs of a body. A body whose comments are not in order is opaque: it has none.
pub open spec fn marks(s: Seq<char>) -> MarksView {
    match document::document(s) {
        Err(_) => no_marks(),
        Ok(document) => match (
            document::found_outside(s, document.ranges, MarkKind::Heading),
            document::found_outside(s, document.ranges, MarkKind::Task),
        ) {
            (Some(headings), Some(tasks)) => MarksView {
                headings: uncovered(headings, document.ranges, headings.len()),
                tasks,
                protected: match document.registry {
                    Some(registry) => Some(
                        Span { start: registry.section.start, end: registry.section.end },
                    ),
                    None => None,
                },
            },
            _ => no_marks(),
        },
    }
}

/// Finds the constructs of a body.
fn find_marks(s: &[char]) -> (r: Marks)
    requires
        source::fits(s@),
    ensures
        r@ == marks(s@),
        r.bounded(s@.len() as int),
{
    let none = Marks { headings: Vec::new(), tasks: Vec::new(), protected: None };
    assert(none@ =~= no_marks());
    match document::parse_document(s) {
        Err(_) => none,
        Ok(document) => match (
            document::find_marks_outside(s, &document.ranges, MarkKind::Heading),
            document::find_marks_outside(s, &document.ranges, MarkKind::Task),
        ) {
            (Some(headings), Some(tasks)) => {
                let protected = match document.registry {
                    Some(registry) => Some(
                        Span { start: registry.section.start, end: registry.section.end },
                    ),
                    None => None,
                };
                let headings = keep_uncovered(
                    &headings,
                    &document.ranges,
                    Ghost(s@.len() as int),
                );
                Marks { headings, tasks, protected }
            },
            _ => none,
        },
    }
}

/// Whether one of the constructs begins in the line that begins at an index.
pub open spec fn begins_in_line(s: Seq<char>, spans: Seq<Span>, at: int) -> bool {
    exists|i: int|
        0 <= i < spans.len() && text::line_start(s, (#[trigger] spans[i]).start as int) == at
}

/// Whether one of the constructs begins in the line that begins at an index.
fn line_has(s: &[char], spans: &Vec<Span>, at: usize) -> (r: bool)
    requires
        outline::all_lie_in(spans@, s@.len() as int),
    ensures
        r == begins_in_line(s@, spans@, at as int),
{
    let mut i: usize = 0;
    while i < spans.len()
        invariant
            i <= spans@.len(),
            outline::all_lie_in(spans@, s@.len() as int),
            forall|k: int|
                0 <= k < i ==> text::line_start(s@, (#[trigger] spans@[k]).start as int) != at,
        decreases spans@.len() - i,
    {
        assert(outline::lies_in(spans@[i as int], s@.len() as int));
        if text::start_of_line(s, spans[i].start) == at {
            return true;
        }
        i += 1;
    }
    false
}

/// The heading of the line that begins at an index, where the parser sees one there.
pub open spec fn line_heading(s: Seq<char>, spans: Seq<Span>, at: int) -> Option<HeadingView> {
    match outline::atx(text::trim_start(text::line_at(s, at), CharClass::Space)) {
        Some((level, title)) => if begins_in_line(s, spans, at) {
            Some(
                HeadingView {
                    title,
                    level,
                    start: at as usize,
                    content_start: text::line_end(s, at) as usize,
                },
            )
        } else {
            None
        },
        None => None,
    }
}

/// The headings of the lines from an index on, behind those that are already read.
pub open spec fn line_headings(
    s: Seq<char>,
    spans: Seq<Span>,
    at: int,
    read: Seq<HeadingView>,
) -> Seq<HeadingView>
    decreases s.len() - at,
{
    if at < 0 || at >= s.len() {
        read
    } else {
        let end = text::line_end(s, at);
        proof {
            text::lemma_line_end(s, at);
        }
        match line_heading(s, spans, at) {
            Some(heading) => line_headings(s, spans, end, read.push(heading)),
            None => line_headings(s, spans, end, read),
        }
    }
}

/// The sections of a body, given where its headings are.
pub open spec fn sections_from(s: Seq<char>, spans: Seq<Span>) -> Seq<RegionView> {
    outline::regions(line_headings(s, spans, 0, Seq::empty()), s.len() as usize)
}

/// The sections of a body.
pub open spec fn sections_in(s: Seq<char>) -> Seq<RegionView> {
    sections_from(s, marks(s).headings)
}

/// Whether sections have their content in a text of the given length.
pub open spec fn well_placed(regions: Seq<RegionView>, len: int) -> bool {
    forall|i: int|
        0 <= i < regions.len() ==> (#[trigger] regions[i]).start < regions[i].content_start
            <= regions[i].end <= len
}

/// The content of each section lies behind its heading.
proof fn lemma_well_placed(headings: Seq<HeadingView>, len: usize)
    requires
        outline::in_order(headings, len),
    ensures
        well_placed(outline::regions(headings, len), len as int),
{
    assert forall|i: int| 0 <= i < headings.len() implies (#[trigger] outline::regions(
        headings,
        len,
    )[i]).content_start <= outline::regions(headings, len)[i].end
        && outline::regions(headings, len)[i].end <= len by {
        lemma_peer_behind(headings, i, i + 1, len);
    }
}

/// A section ends behind its heading.
pub proof fn lemma_peer_behind(headings: Seq<HeadingView>, i: int, from: int, len: usize)
    requires
        outline::in_order(headings, len),
        0 <= i < from,
        i < headings.len(),
    ensures
        headings[i].content_start <= outline::next_peer(headings, from, headings[i].level, len)
            <= len,
    decreases headings.len() - from,
{
    if from < headings.len() && headings[from].level > headings[i].level {
        lemma_peer_behind(headings, i, from + 1, len);
    }
}

/// Builds the sections of a body, given where its headings are.
pub fn sections_with(s: &[char], spans: &Vec<Span>) -> (r: Vec<Region>)
    requires
        outline::all_lie_in(spans@, s@.len() as int),
    ensures
        outline::region_views(r@) == sections_from(s@, spans@),
        well_placed(outline::region_views(r@), s@.len() as int),
{
    let mut read: Vec<Heading> = Vec::new();
    assert(outline::heading_views(read@) =~= Seq::empty());
    let ghost all = line_headings(s@, spans@, 0, Seq::empty());
    let mut at: usize = 0;
    while at < s.len()
        invariant
            at <= s@.len(),
            outline::all_lie_in(spans@, s@.len() as int),
            line_headings(s@, spans@, at as int, outline::heading_views(read@)) == all,
            outline::in_order(outline::heading_views(read@), s@.len() as usize),
            forall|i: int|
                0 <= i < read@.len() ==> (#[trigger] outline::heading_views(
                    read@,
                )[i]).content_start <= at,
        decreases s@.len() - at,
    {
        let end = text::end_of_line(s, at);
        let line = text::text_of_line(slice_subrange(s, at, end));
        match outline::atx_heading(text::without_lead(line, CharClass::Space)) {
            Some((level, title)) => {
                if line_has(s, spans, at) {
                    let heading = Heading { title, level, start: at, content_start: end };
                    let ghost before = outline::heading_views(read@);
                    let ghost added = heading@;
                    read.push(heading);
                    assert(outline::heading_views(read@) =~= before.push(added));
                }
            },
            None => {},
        }
        at = end;
    }
    proof {
        lemma_well_placed(outline::heading_views(read@), s.len());
    }
    outline::regions_of(&read, s.len())
}

/// Finds the sections of a body.
fn find_sections(s: &[char]) -> (r: Vec<Region>)
    requires
        source::fits(s@),
    ensures
        outline::region_views(r@) == sections_in(s@),
        well_placed(outline::region_views(r@), s@.len() as int),
{
    let marks = find_marks(s);
    sections_with(s, &marks.headings)
}

/// A section as specifications speak of it, in bytes.
#[verifier::ext_equal]
pub struct SectionView {
    pub title: Seq<char>,
    pub level: u8,
    pub start: usize,
    pub content_start: usize,
    pub end: usize,
}

/// A section of a body, with its ranges in bytes.
#[derive(Clone, Debug, PartialEq, Eq)]
pub struct Section {
    pub title: String,
    pub level: u8,
    /// Where the line of its heading begins.
    pub start: usize,
    /// Where its content begins.
    pub content_start: usize,
    /// Where it ends.
    pub end: usize,
}

impl View for Section {
    type V = SectionView;

    open spec fn view(&self) -> SectionView {
        SectionView {
            title: self.title@,
            level: self.level,
            start: self.start,
            content_start: self.content_start,
            end: self.end,
        }
    }
}

/// A section with its ranges in bytes.
pub open spec fn in_bytes(s: Seq<char>, region: RegionView) -> SectionView {
    SectionView {
        title: region.title,
        level: region.level,
        start: source::offset(s, region.start as int) as usize,
        content_start: source::offset(s, region.content_start as int) as usize,
        end: source::offset(s, region.end as int) as usize,
    }
}

/// The sections of a body with their ranges in bytes.
pub open spec fn sections_in_bytes(s: Seq<char>) -> Seq<SectionView> {
    sections_in(s).map_values(|region: RegionView| in_bytes(s, region))
}

/// The sections of a body.
pub fn sections(body: &str) -> (r: Vec<Section>)
    ensures
        r@.map_values(|section: Section| section@) == sections_in_bytes(body@),
{
    let source = Source::of(body);
    let regions = find_sections(&source.chars);
    let ghost views = outline::region_views(regions@);
    let mut out: Vec<Section> = Vec::new();
    let mut i: usize = 0;
    while i < regions.len()
        invariant
            i <= regions@.len(),
            source.well_formed(),
            source@ == body@,
            views == outline::region_views(regions@),
            views == sections_in(body@),
            well_placed(views, body@.len() as int),
            out@.map_values(|section: Section| section@) =~= sections_in_bytes(body@).take(i as int),
        decreases regions@.len() - i,
    {
        let region = &regions[i];
        assert(views[i as int] == region@);
        let section = Section {
            title: text::string_of(&region.title),
            level: region.level,
            start: source.byte(region.start),
            content_start: source.byte(region.content_start),
            end: source.byte(region.end),
        };
        let ghost before = out@.map_values(|section: Section| section@);
        let ghost added = section@;
        assert(added =~= sections_in_bytes(body@)[i as int]);
        out.push(section);
        assert(out@.map_values(|section: Section| section@) =~= before.push(added));
        assert(sections_in_bytes(body@).take(i + 1) =~= sections_in_bytes(body@).take(
            i as int,
        ).push(added));
        i += 1;
    }
    assert(sections_in_bytes(body@).take(i as int) =~= sections_in_bytes(body@));
    out
}

/// A checkbox in a line as specifications speak of it.
#[verifier::ext_equal]
pub struct CheckboxView {
    /// The index of the state character.
    pub at: int,
    pub checked: bool,
    pub text: Seq<char>,
}

/// Where the marker of a list item ends: a bullet, or up to nine digits and a delimiter.
pub open spec fn marker_end(line: Seq<char>) -> Option<int> {
    let digits = text::lead(line, CharClass::Digit);
    if line.len() > 0 && (line[0] == '-' || line[0] == '*' || line[0] == '+') {
        Some(1)
    } else if 1 <= digits <= 9 && digits < line.len() && (line[digits as int] == '.'
        || line[digits as int] == ')') {
        Some(digits as int + 1)
    } else {
        None
    }
}

/// The checkbox that a line begins with: the marker of a list item, blanks, a bracket with a state,
/// and a blank or the end behind it.
pub open spec fn checkbox(line: Seq<char>) -> Option<CheckboxView> {
    match marker_end(line) {
        None => None,
        Some(end) => {
            let blanks = text::lead(line.skip(end), CharClass::Blank);
            let open = end + blanks;
            if blanks > 0 && open + 2 < line.len() && line[open] == '[' && (line[open + 1] == ' '
                || line[open + 1] == 'x' || line[open + 1] == 'X') && line[open + 2] == ']' && (open
                + 3 == line.len() || text::in_class(CharClass::Blank, line[open + 3])) {
                Some(
                    CheckboxView {
                        at: open + 1,
                        checked: line[open + 1] != ' ',
                        text: text::trim(line.skip(open + 3)),
                    },
                )
            } else {
                None
            }
        },
    }
}

/// A checkbox in a line.
pub struct Checkbox {
    pub at: usize,
    pub checked: bool,
    pub text: Vec<char>,
}

impl View for Checkbox {
    type V = CheckboxView;

    open spec fn view(&self) -> CheckboxView {
        CheckboxView { at: self.at as int, checked: self.checked, text: self.text@ }
    }
}

/// Reads the checkbox that a line begins with.
pub fn read_checkbox(line: &[char]) -> (r: Option<Checkbox>)
    ensures
        match r {
            Some(found) => checkbox(line@) == Some(found@) && found.at < line@.len(),
            None => checkbox(line@) is None,
        },
{
    if line.len() == 0 {
        return None;
    }
    let digits = text::lead_len(line, CharClass::Digit);
    let end = if line[0] == '-' || line[0] == '*' || line[0] == '+' {
        1
    } else if 1 <= digits && digits <= 9 && digits < line.len() && (line[digits] == '.'
        || line[digits] == ')') {
        digits + 1
    } else {
        return None;
    };
    let rest = slice_subrange(line, end, line.len());
    assert(rest@ =~= line@.skip(end as int));
    let blanks = text::lead_len(rest, CharClass::Blank);
    if blanks == 0 {
        return None;
    }
    let inner = slice_subrange(rest, blanks, rest.len());
    assert(forall|k: int| 0 <= k < inner@.len() ==> inner@[k] == line@[end + blanks + k]);
    if inner.len() < 3 || inner[0] != '[' || inner[2] != ']' {
        return None;
    }
    let state = inner[1];
    if state != ' ' && state != 'x' && state != 'X' {
        return None;
    }
    if inner.len() > 3 && !text::has_class(CharClass::Blank, inner[3]) {
        return None;
    }
    let tail = slice_subrange(inner, 3, inner.len());
    assert(tail@ =~= line@.skip(end + blanks + 3));
    Some(
        Checkbox {
            at: end + blanks + 1,
            checked: state != ' ',
            text: text::copy_of(text::trimmed(tail, CharClass::Space)),
        },
    )
}

/// The index of the state character of the checkbox in a line that begins at an index.
pub open spec fn state_index(line: Seq<char>, start: int) -> Option<int> {
    let trimmed = text::trim_start(line, CharClass::Space);
    match checkbox(trimmed) {
        Some(found) => Some(start + (line.len() - trimmed.len()) + found.at),
        None => None,
    }
}

/// Whether a task-list marker outside the managed comments is the checkbox at an index.
pub open spec fn is_task(s: Seq<char>, tasks: Seq<Span>, protected: Option<Span>, at: int) -> bool {
    exists|i: int| 0 <= i < tasks.len() && marks_box(s, #[trigger] tasks[i], protected, at)
}

/// Whether a task-list marker is the checkbox at an index.
pub open spec fn marks_box(s: Seq<char>, task: Span, protected: Option<Span>, at: int) -> bool {
    let start = text::line_start(s, task.start as int);
    let line = s.subrange(start, text::next_index(s, '\n', task.start as int));
    &&& task.start < s.len()
    &&& !(protected matches Some(span) && span.start <= task.start < span.end)
    &&& state_index(line, start) == Some(at)
}

/// Finds the state character of the checkbox in a line that begins at an index.
fn find_state(line: &[char], start: usize) -> (r: Option<usize>)
    requires
        start + line@.len() <= usize::MAX,
    ensures
        match r {
            Some(at) => state_index(line@, start as int) == Some(at as int) && at < start
                + line@.len(),
            None => state_index(line@, start as int) is None,
        },
{
    let trimmed = text::without_lead(line, CharClass::Space);
    proof {
        text::lemma_lead_is(line@, CharClass::Space);
    }
    match read_checkbox(trimmed) {
        Some(found) => Some(start + (line.len() - trimmed.len()) + found.at),
        None => None,
    }
}

/// Whether a task-list marker outside the managed comments is the checkbox at an index.
fn task_at(s: &[char], tasks: &Vec<Span>, protected: Option<Span>, at: usize) -> (r: bool)
    requires
        outline::all_lie_in(tasks@, s@.len() as int),
    ensures
        r == is_task(s@, tasks@, protected, at as int),
{
    let mut i: usize = 0;
    while i < tasks.len()
        invariant
            i <= tasks@.len(),
            outline::all_lie_in(tasks@, s@.len() as int),
            forall|k: int|
                0 <= k < i ==> !marks_box(s@, #[trigger] tasks@[k], protected, at as int),
        decreases tasks@.len() - i,
    {
        let task = tasks[i];
        assert(outline::lies_in(tasks@[i as int], s@.len() as int));
        let hidden = match protected {
            Some(span) => span.start <= task.start && task.start < span.end,
            None => false,
        };
        if !hidden && task.start < s.len() {
            let start = text::start_of_line(s, task.start);
            let end = text::find_char(s, '\n', task.start);
            let line = slice_subrange(s, start, end);
            match find_state(line, start) {
                Some(found) => {
                    if found == at {
                        assert(marks_box(s@, tasks@[i as int], protected, at as int));
                        return true;
                    }
                },
                None => {},
            }
        }
        i += 1;
    }
    false
}

/// A checklist item before it is counted, as specifications speak of it.
#[verifier::ext_equal]
pub struct TaskView {
    /// Its line.
    pub line: Span,
    /// The number of its line, from one.
    pub number: nat,
    /// The index of the state character.
    pub at: int,
    pub checked: bool,
    pub text: Seq<char>,
}

/// The checklist item in the line that begins at an index.
pub open spec fn line_task(s: Seq<char>, marks: MarksView, at: int, number: nat) -> Option<
    TaskView,
> {
    let line = text::line_at(s, at);
    match (checkbox(text::trim_start(line, CharClass::Space)), state_index(line, at)) {
        (Some(found), Some(state)) => if is_task(s, marks.tasks, marks.protected, state) {
            Some(
                TaskView {
                    line: Span { start: at as usize, end: text::line_end(s, at) as usize },
                    number,
                    at: state,
                    checked: found.checked,
                    text: found.text,
                },
            )
        } else {
            None
        },
        _ => None,
    }
}

/// The checklist items of the lines from an index on, behind those that are already read.
pub open spec fn tasks_from(
    s: Seq<char>,
    marks: MarksView,
    at: int,
    number: nat,
    read: Seq<TaskView>,
) -> Seq<TaskView>
    decreases s.len() - at,
{
    if at < 0 || at >= s.len() {
        read
    } else {
        let end = text::line_end(s, at);
        proof {
            text::lemma_line_end(s, at);
        }
        match line_task(s, marks, at, number) {
            Some(task) => tasks_from(s, marks, end, number + 1, read.push(task)),
            None => tasks_from(s, marks, end, number + 1, read),
        }
    }
}

/// The checklist items of a body, given its constructs, before they are counted.
pub open spec fn tasks_in(s: Seq<char>, marks: MarksView) -> Seq<TaskView> {
    tasks_from(s, marks, 0, 1, Seq::empty())
}

/// The section that a checklist item is in.
pub open spec fn section_index(regions: Seq<RegionView>, task: TaskView) -> Option<int> {
    outline::deepest(regions, task.line.start as int, regions.len())
}

/// How many of the first `n` items are in a section.
pub open spec fn count_in(
    regions: Seq<RegionView>,
    tasks: Seq<TaskView>,
    section: Option<int>,
    n: nat,
) -> nat
    decreases n,
{
    if n == 0 || n > tasks.len() {
        0
    } else {
        count_in(regions, tasks, section, (n - 1) as nat) + if section_index(regions, tasks[n - 1])
            == section {
            1nat
        } else {
            0nat
        }
    }
}

/// A checklist item as specifications speak of it.
#[verifier::ext_equal]
pub struct ItemView {
    pub section: Option<Seq<char>>,
    pub index: nat,
    pub global_index: nat,
    pub text: Seq<char>,
    pub checked: bool,
    pub line_number: nat,
    /// The index of the state character.
    pub at: int,
    /// The line.
    pub line: Span,
}

/// The item at a place in the list.
pub open spec fn item(regions: Seq<RegionView>, tasks: Seq<TaskView>, i: int) -> ItemView {
    let section = section_index(regions, tasks[i]);
    ItemView {
        section: match section {
            Some(k) => Some(regions[k].title),
            None => None,
        },
        index: count_in(regions, tasks, section, (i + 1) as nat),
        global_index: (i + 1) as nat,
        text: tasks[i].text,
        checked: tasks[i].checked,
        line_number: tasks[i].number,
        at: tasks[i].at,
        line: tasks[i].line,
    }
}

/// The checklist items of a body, given its constructs.
pub open spec fn items_from(s: Seq<char>, marks: MarksView) -> Seq<ItemView> {
    let regions = sections_from(s, marks.headings);
    let tasks = tasks_in(s, marks);
    Seq::new(tasks.len(), |i: int| item(regions, tasks, i))
}

/// The checklist items of a body.
pub open spec fn items_in(s: Seq<char>) -> Seq<ItemView> {
    items_from(s, marks(s))
}

/// A checklist item.
#[derive(Clone, Debug, PartialEq, Eq)]
pub struct ChecklistItem {
    /// The title of the section that it is in.
    pub section: Option<String>,
    /// Its position within the section, or within what precedes all sections, from one.
    pub index: usize,
    /// Its position among all checklist items of the body, from one.
    pub global_index: usize,
    pub text: String,
    pub checked: bool,
    pub line_number: usize,
    /// The place of the state character, counted in characters.
    pub checkbox: usize,
    /// The line, counted in characters.
    pub line: Span,
}

impl View for ChecklistItem {
    type V = ItemView;

    open spec fn view(&self) -> ItemView {
        ItemView {
            section: match self.section {
                Some(title) => Some(title@),
                None => None,
            },
            index: self.index as nat,
            global_index: self.global_index as nat,
            text: self.text@,
            checked: self.checked,
            line_number: self.line_number as nat,
            at: self.checkbox as int,
            line: self.line,
        }
    }
}

/// The items in a list.
pub open spec fn item_views(items: Seq<ChecklistItem>) -> Seq<ItemView> {
    items.map_values(|i: ChecklistItem| i@)
}

/// A checklist item before it is counted.
struct Task {
    line: Span,
    number: usize,
    at: usize,
    checked: bool,
    text: Vec<char>,
}

impl View for Task {
    type V = TaskView;

    closed spec fn view(&self) -> TaskView {
        TaskView {
            line: self.line,
            number: self.number as nat,
            at: self.at as int,
            checked: self.checked,
            text: self.text@,
        }
    }
}

/// The uncounted items in a list.
spec fn task_views(tasks: Seq<Task>) -> Seq<TaskView> {
    tasks.map_values(|t: Task| t@)
}

/// Whether items stand in a text of the given length, each with its state character in its line.
pub open spec fn tasks_placed(tasks: Seq<TaskView>, len: int) -> bool {
    forall|i: int|
        0 <= i < tasks.len() ==> (#[trigger] tasks[i]).line.start <= tasks[i].at
            < tasks[i].line.end <= len
}

/// Reads the checklist items of a body, given its constructs, without counting them.
fn read_tasks(s: &[char], marks: &Marks) -> (r: Vec<Task>)
    requires
        marks.bounded(s@.len() as int),
    ensures
        task_views(r@) == tasks_in(s@, marks@),
        tasks_placed(task_views(r@), s@.len() as int),
        r@.len() <= s@.len(),
{
    let mut read: Vec<Task> = Vec::new();
    assert(task_views(read@) =~= Seq::empty());
    let ghost all = tasks_in(s@, marks@);
    let mut at: usize = 0;
    let mut number: usize = 1;
    while at < s.len()
        invariant
            at <= s@.len(),
            1 <= number <= at + 1,
            at < s@.len() ==> number <= at + 1,
            read@.len() <= at,
            marks.bounded(s@.len() as int),
            all == tasks_in(s@, marks@),
            tasks_from(s@, marks@, at as int, number as nat, task_views(read@)) == all,
            tasks_placed(task_views(read@), s@.len() as int),
        decreases s@.len() - at,
    {
        let end = text::end_of_line(s, at);
        let line = text::text_of_line(slice_subrange(s, at, end));
        proof {
            lemma_line_text(s@.subrange(at as int, end as int));
            text::lemma_lead_is(line@, CharClass::Space);
        }
        let found = read_checkbox(text::without_lead(line, CharClass::Space));
        let state = find_state(line, at);
        match (found, state) {
            (Some(found), Some(state)) => {
                if task_at(s, &marks.tasks, marks.protected, state) {
                    let task = Task {
                        line: Span { start: at, end },
                        number,
                        at: state,
                        checked: found.checked,
                        text: found.text,
                    };
                    let ghost before = task_views(read@);
                    let ghost added = task@;
                    assert(line_task(s@, marks@, at as int, number as nat) == Some(added));
                    read.push(task);
                    assert(task_views(read@) =~= before.push(added));
                }
            },
            _ => {},
        }
        at = end;
        if at < s.len() {
            number += 1;
        } else {
            let ghost last = task_views(read@);
            assert(tasks_from(s@, marks@, at as int, number as nat, last) == last);
            assert(tasks_from(s@, marks@, at as int, (number + 1) as nat, last) == last);
        }
    }
    read
}

proof fn lemma_line_text(line: Seq<char>)
    ensures
        text::line_text(line).len() <= line.len(),
{
}

/// A place in a list of sections as specifications speak of it.
spec fn place(slot: Option<usize>) -> Option<int> {
    match slot {
        Some(i) => Some(i as int),
        None => None,
    }
}

/// Counts the first `n` items that are in a section.
fn count_slots(
    slots: &Vec<Option<usize>>,
    slot: Option<usize>,
    n: usize,
    Ghost(regions): Ghost<Seq<RegionView>>,
    Ghost(tasks): Ghost<Seq<TaskView>>,
) -> (r: usize)
    requires
        n <= slots@.len() <= tasks.len(),
        forall|i: int|
            0 <= i < slots@.len() ==> place(#[trigger] slots@[i]) == section_index(
                regions,
                tasks[i],
            ),
    ensures
        r == count_in(regions, tasks, place(slot), n as nat),
        r <= n,
{
    let mut count: usize = 0;
    let mut i: usize = 0;
    while i < n
        invariant
            i <= n <= slots@.len() <= tasks.len(),
            count <= i,
            forall|k: int|
                0 <= k < slots@.len() ==> place(#[trigger] slots@[k]) == section_index(
                    regions,
                    tasks[k],
                ),
            count == count_in(regions, tasks, place(slot), i as nat),
        decreases n - i,
    {
        let same = match (slots[i], slot) {
            (Some(a), Some(b)) => a == b,
            (None, None) => true,
            _ => false,
        };
        assert(place(slots@[i as int]) == section_index(regions, tasks[i as int]));
        if same {
            count += 1;
        }
        i += 1;
    }
    count
}

/// Whether items have their lines and state characters in a text of the given length.
pub open spec fn items_placed(items: Seq<ItemView>, len: int) -> bool {
    forall|i: int|
        0 <= i < items.len() ==> (#[trigger] items[i]).line.start <= items[i].at
            < items[i].line.end <= len
}

/// Builds the checklist items of a body, given its constructs.
pub fn items_with(s: &[char], marks: &Marks) -> (r: Vec<ChecklistItem>)
    requires
        marks.bounded(s@.len() as int),
    ensures
        item_views(r@) == items_from(s@, marks@),
        items_placed(item_views(r@), s@.len() as int),
{
    let regions = sections_with(s, &marks.headings);
    let tasks = read_tasks(s, marks);
    let ghost views = outline::region_views(regions@);
    let ghost all = task_views(tasks@);
    let mut slots: Vec<Option<usize>> = Vec::new();
    let mut items: Vec<ChecklistItem> = Vec::new();
    let mut i: usize = 0;
    while i < tasks.len()
        invariant
            i <= tasks@.len() <= s@.len(),
            views == outline::region_views(regions@),
            views == sections_from(s@, marks@.headings),
            all == task_views(tasks@),
            all == tasks_in(s@, marks@),
            tasks_placed(all, s@.len() as int),
            slots@.len() == i,
            forall|k: int|
                0 <= k < i ==> place(#[trigger] slots@[k]) == section_index(views, all[k]),
            item_views(items@) =~= items_from(s@, marks@).take(i as int),
            items_placed(item_views(items@), s@.len() as int),
        decreases tasks@.len() - i,
    {
        let task = &tasks[i];
        assert(all[i as int] == task@);
        let slot = outline::deepest_at(&regions, task.line.start);
        slots.push(slot);
        assert(place(slot) == section_index(views, all[i as int]));
        let index = count_slots(&slots, slot, i + 1, Ghost(views), Ghost(all));
        let section = match slot {
            Some(k) => {
                assert(views[k as int] == regions@[k as int]@);
                Some(text::string_of(&regions[k].title))
            },
            None => None,
        };
        let added = ChecklistItem {
            section,
            index,
            global_index: i + 1,
            text: text::string_of(&task.text),
            checked: task.checked,
            line_number: task.number,
            checkbox: task.at,
            line: task.line,
        };
        let ghost before = item_views(items@);
        let ghost shown = added@;
        assert(shown =~= item(views, all, i as int));
        items.push(added);
        assert(item_views(items@) =~= before.push(shown));
        assert(items_from(s@, marks@).take(i + 1) =~= items_from(s@, marks@).take(i as int).push(
            shown,
        ));
        i += 1;
    }
    assert(items_from(s@, marks@).take(i as int) =~= items_from(s@, marks@));
    items
}

/// Finds the checklist items of a body.
fn find_items(s: &[char]) -> (r: Vec<ChecklistItem>)
    requires
        source::fits(s@),
    ensures
        item_views(r@) == items_in(s@),
        items_placed(item_views(r@), s@.len() as int),
{
    let marks = find_marks(s);
    items_with(s, &marks)
}

/// The checklist items of a body.
pub fn checklist_items(body: &str) -> (r: Vec<ChecklistItem>)
    ensures
        item_views(r@) == items_in(body@),
{
    let source = Source::of(body);
    find_items(&source.chars)
}

/// The one section with a title, given the sections.
pub open spec fn section_among(sections: Seq<RegionView>, title: Seq<char>) -> Result<
    Option<RegionView>,
    Failure,
> {
    match outline::only_titled(sections, text::trim(title)) {
        Err(count) => Err(error::detailed(ErrorKind::AmbiguousSection, title, text::decimal(count))),
        Ok(Some(i)) => Ok(Some(sections[i])),
        Ok(None) => Ok(None),
    }
}

/// The one section with a title.
pub open spec fn section_named(s: Seq<char>, title: Seq<char>) -> Result<
    Option<RegionView>,
    Failure,
> {
    section_among(sections_in(s), title)
}

/// Whether a found section is the one that a specification gives.
pub open spec fn names_section(
    result: Result<Option<Region>, Error>,
    expected: Result<Option<RegionView>, Failure>,
    len: int,
) -> bool {
    match (result, expected) {
        (Ok(Some(region)), Ok(Some(view))) => region@ == view && view.start < view.content_start
            <= view.end <= len,
        (Ok(None), Ok(None)) => true,
        (Err(error), Err(failure)) => error@ == failure,
        _ => false,
    }
}

/// Finds the one section with a title, given the sections.
fn pick_section(sections: &Vec<Region>, title: &[char], Ghost(len): Ghost<int>) -> (r: Result<
    Option<Region>,
    Error,
>)
    requires
        well_placed(outline::region_views(sections@), len),
    ensures
        names_section(r, section_among(outline::region_views(sections@), title@), len),
{
    match outline::find_titled(sections, text::trimmed(title, CharClass::Space)) {
        Err(count) => {
            let count = text::decimal_of(count as u64);
            Err(Error::detailed(ErrorKind::AmbiguousSection, title, &count))
        },
        Ok(Some(i)) => {
            assert(outline::region_views(sections@)[i as int] == sections@[i as int]@);
            Ok(Some(sections[i].copied()))
        },
        Ok(None) => Ok(None),
    }
}

/// Finds the one section with a title.
fn unique_section(s: &[char], title: &[char]) -> (r: Result<Option<Region>, Error>)
    requires
        source::fits(s@),
    ensures
        names_section(r, section_named(s@, title@), s@.len() as int),
{
    let sections = find_sections(s);
    pick_section(&sections, title, Ghost(s@.len() as int))
}

/// The content of a section without the line endings around it.
pub open spec fn content_of(s: Seq<char>, region: RegionView) -> Seq<char> {
    text::trim_both(
        s.subrange(region.content_start as int, region.end as int),
        CharClass::LineEnd,
    )
}

/// The content of the one section with a title.
pub open spec fn content_named(s: Seq<char>, title: Seq<char>) -> Result<Option<Seq<char>>, Failure> {
    match section_named(s, title) {
        Err(failure) => Err(failure),
        Ok(None) => Ok(None),
        Ok(Some(region)) => Ok(Some(content_of(s, region))),
    }
}

/// Whether an optional text is the one that a specification gives.
pub open spec fn gives_text(
    result: Result<Option<String>, Error>,
    expected: Result<Option<Seq<char>>, Failure>,
) -> bool {
    match (result, expected) {
        (Ok(Some(found)), Ok(Some(view))) => found@ == view,
        (Ok(None), Ok(None)) => true,
        (Err(error), Err(failure)) => error@ == failure,
        _ => false,
    }
}

/// The content of the one section with a title.
pub fn section_content(body: &str, title: &str) -> (r: Result<Option<String>, Error>)
    ensures
        gives_text(r, content_named(body@, title@)),
{
    let source = Source::of(body);
    let s = source.chars.as_slice();
    match unique_section(s, &text::chars_of(title)) {
        Err(error) => Err(error),
        Ok(None) => Ok(None),
        Ok(Some(region)) => {
            let content = slice_subrange(s, region.content_start, region.end);
            Ok(Some(text::string_of(text::trimmed(content, CharClass::LineEnd))))
        },
    }
}

/// What is demanded of a section title.
pub open spec fn title_check(title: Seq<char>) -> Result<(), Failure> {
    if text::is_blank(title) {
        Err(error::plain(ErrorKind::EmptyTitle))
    } else if title.contains('\r') || title.contains('\n') {
        Err(error::plain(ErrorKind::TitleLines))
    } else {
        Ok(())
    }
}

/// Checks a section title.
fn validate_heading(title: &[char]) -> (r: Result<(), Error>)
    ensures
        error::decides(r, title_check(title@)),
{
    if text::blank(title) {
        return Err(Error::plain(ErrorKind::EmptyTitle));
    }
    if text::holds_char(title, '\r') || text::holds_char(title, '\n') {
        return Err(Error::plain(ErrorKind::TitleLines));
    }
    Ok(())
}

/// Whether two ranges have something in common.
pub open spec fn overlap(a_start: int, a_end: int, b: Span) -> bool {
    a_start < b.end && b.start < a_end
}

/// What is demanded of a section that is to be changed: it does not touch the managed comments.
pub open spec fn section_check(s: Seq<char>, title: Seq<char>) -> Result<(), Failure> {
    match comments::protected(s) {
        Err(failure) => Err(failure),
        Ok(None) => Ok(()),
        Ok(Some(span)) => match section_named(s, title) {
            Err(failure) => Err(failure),
            Ok(None) => Ok(()),
            Ok(Some(region)) => if overlap(region.start as int, region.end as int, span) {
                Err(error::about(ErrorKind::ProtectedSection, title))
            } else {
                Ok(())
            },
        },
    }
}

/// Checks that a section can be changed.
fn ensure_section_writable(s: &[char], title: &[char]) -> (r: Result<(), Error>)
    requires
        source::fits(s@),
    ensures
        error::decides(r, section_check(s@, title@)),
{
    match comments::protected_span(s) {
        Err(error) => Err(error),
        Ok(None) => Ok(()),
        Ok(Some(span)) => match unique_section(s, title) {
            Err(error) => Err(error),
            Ok(None) => Ok(()),
            Ok(Some(region)) => if region.start < span.end && span.start < region.end {
                Err(Error::about(ErrorKind::ProtectedSection, title))
            } else {
                Ok(())
            },
        },
    }
}

/// What is demanded of a range that is to be changed: it does not touch the managed comments.
pub open spec fn range_check(s: Seq<char>, start: int, end: int, label: Seq<char>) -> Result<
    (),
    Failure,
> {
    match comments::protected(s) {
        Err(failure) => Err(failure),
        Ok(None) => Ok(()),
        Ok(Some(span)) => if overlap(start, end, span) {
            Err(error::about(ErrorKind::ProtectedSection, label))
        } else {
            Ok(())
        },
    }
}

/// Checks that a range can be changed.
fn ensure_range_writable(s: &[char], start: usize, end: usize, label: &[char]) -> (r: Result<
    (),
    Error,
>)
    requires
        source::fits(s@),
    ensures
        error::decides(r, range_check(s@, start as int, end as int, label@)),
{
    match comments::protected_span(s) {
        Err(error) => Err(error),
        Ok(None) => Ok(()),
        Ok(Some(span)) => if start < span.end && span.start < end {
            Err(Error::about(ErrorKind::ProtectedSection, label))
        } else {
            Ok(())
        },
    }
}

/// A changed body, with a line feed at its end where the body had one.
pub open spec fn closed_line(s: Seq<char>, changed: Seq<char>) -> Seq<char> {
    if text::finishes(s, "\n"@) && !text::finishes(changed, "\n"@) {
        changed + "\n"@
    } else {
        changed
    }
}

/// Puts a line feed at the end of a changed body where the body had one.
fn close_line(s: &[char], changed: &mut Vec<char>)
    ensures
        final(changed)@ == closed_line(s@, old(changed)@),
{
    let feed = text::chars_of("\n");
    if text::ends(s, &feed) && !text::ends(changed, &feed) {
        text::push_all(changed, &feed);
    }
}

/// A content between line feeds, or nothing where it is blank.
pub open spec fn padded(content: Seq<char>) -> Seq<char> {
    if text::is_blank(content) {
        Seq::empty()
    } else {
        "\n"@ + text::trim_both(content, CharClass::LineEnd) + "\n"@
    }
}

/// What follows a changed section: a blank line and the rest, without the line endings before it.
pub open spec fn rest_behind(s: Seq<char>, end: int) -> Seq<char> {
    if end < s.len() {
        "\n"@ + text::trim_start(s.skip(end), CharClass::LineEnd)
    } else {
        Seq::empty()
    }
}

/// A body with the content of a section replaced.
pub open spec fn replaced(s: Seq<char>, region: RegionView, content: Seq<char>) -> Seq<char> {
    closed_line(
        s,
        s.take(region.content_start as int) + padded(content) + rest_behind(s, region.end as int),
    )
}

/// Replaces the content of a section.
fn replace_section_content(s: &[char], region: &Region, content: &[char]) -> (r: Vec<char>)
    requires
        region@.content_start <= s@.len(),
        region@.end <= s@.len(),
    ensures
        r@ == replaced(s@, region@, content@),
{
    let feed = text::chars_of("\n");
    let mut out = text::copy_of(slice_subrange(s, 0, region.content_start));
    let ghost before = s@.take(region.content_start as int);
    assert(out@ =~= before);
    if !text::blank(content) {
        text::push_all(&mut out, &feed);
        text::push_all(&mut out, text::trimmed(content, CharClass::LineEnd));
        text::push_all(&mut out, &feed);
    }
    assert(out@ =~= before + padded(content@));
    if region.end < s.len() {
        let rest = slice_subrange(s, region.end, s.len());
        assert(rest@ =~= s@.skip(region.end as int));
        text::push_all(&mut out, &feed);
        text::push_all(&mut out, text::without_lead(rest, CharClass::LineEnd));
    }
    assert(out@ =~= before + padded(content@) + rest_behind(s@, region.end as int));
    close_line(s, &mut out);
    out
}

/// A body with a new section at its end.
pub open spec fn with_section(s: Seq<char>, title: Seq<char>, content: Seq<char>) -> Seq<char> {
    let base = text::trim_end(s, CharClass::LineEnd);
    let gap = if base.len() == 0 {
        Seq::empty()
    } else {
        "\n\n"@
    };
    let inner = if text::is_blank(content) {
        Seq::empty()
    } else {
        "\n\n"@ + text::trim_both(content, CharClass::LineEnd)
    };
    base + gap + "## "@ + text::trim(title) + inner + "\n"@
}

/// Adds a section at the end of a body.
fn add_section(s: &[char], title: &[char], content: &[char]) -> (r: Vec<char>)
    ensures
        r@ == with_section(s@, title@, content@),
{
    let blank = text::chars_of("\n\n");
    let mut out = text::copy_of(text::without_trail(s, CharClass::LineEnd));
    let ghost base = out@;
    let ghost gap = if base.len() == 0 {
        Seq::empty()
    } else {
        "\n\n"@
    };
    if out.len() > 0 {
        text::push_all(&mut out, &blank);
    }
    assert(out@ =~= base + gap);
    text::push_all(&mut out, &text::chars_of("## "));
    text::push_all(&mut out, text::trimmed(title, CharClass::Space));
    let ghost headed = out@;
    let ghost inner = if text::is_blank(content@) {
        Seq::empty()
    } else {
        "\n\n"@ + text::trim_both(content@, CharClass::LineEnd)
    };
    if !text::blank(content) {
        text::push_all(&mut out, &blank);
        text::push_all(&mut out, text::trimmed(content, CharClass::LineEnd));
    }
    assert(out@ =~= headed + inner);
    text::push_all(&mut out, &text::chars_of("\n"));
    out
}

/// A body in which the section with a title has the given content.
pub open spec fn section_set(s: Seq<char>, title: Seq<char>, content: Seq<char>) -> Result<
    Seq<char>,
    Failure,
> {
    if title_check(title) is Err {
        Err(title_check(title)->Err_0)
    } else if section_check(s, title) is Err {
        Err(section_check(s, title)->Err_0)
    } else {
        match section_named(s, title) {
            Err(failure) => Err(failure),
            Ok(Some(region)) => Ok(replaced(s, region, content)),
            Ok(None) => Ok(with_section(s, title, content)),
        }
    }
}

/// Sets the content of a section.
fn set_in(s: &[char], title: &[char], content: &[char]) -> (r: Result<Vec<char>, Error>)
    requires
        source::fits(s@),
    ensures
        error::agrees(r, section_set(s@, title@, content@)),
{
    match validate_heading(title) {
        Ok(_) => {},
        Err(error) => {
            return Err(error);
        },
    }
    match ensure_section_writable(s, title) {
        Ok(_) => {},
        Err(error) => {
            return Err(error);
        },
    }
    match unique_section(s, title) {
        Err(error) => Err(error),
        Ok(Some(region)) => Ok(replace_section_content(s, &region, content)),
        Ok(None) => Ok(add_section(s, title, content)),
    }
}

/// A changed text as a string.
fn as_string(changed: Result<Vec<char>, Error>) -> (r: Result<String, Error>)
    ensures
        match (r, changed) {
            (Ok(string), Ok(chars)) => string@ == chars@,
            (Err(error), Err(old)) => error@ == old@,
            _ => false,
        },
{
    match changed {
        Ok(chars) => Ok(text::string_of(&chars)),
        Err(error) => Err(error),
    }
}

/// Sets the content of a section, or adds the section at the end of the body.
pub fn set_section(body: &str, title: &str, content: &str) -> (r: Result<String, Error>)
    ensures
        error::agrees(r, section_set(body@, title@, content@)),
{
    let source = Source::of(body);
    as_string(set_in(&source.chars, &text::chars_of(title), &text::chars_of(content)))
}

/// The content of a section with a further paragraph.
pub open spec fn continued(existing: Option<Seq<char>>, content: Seq<char>) -> Seq<char> {
    let added = text::trim_both(content, CharClass::LineEnd);
    match existing {
        Some(present) => if text::is_blank(present) {
            added
        } else {
            text::trim_end(present, CharClass::LineEnd) + "\n\n"@ + added
        },
        None => added,
    }
}

/// A body in which a paragraph is added to the section with a title.
pub open spec fn section_extended(s: Seq<char>, title: Seq<char>, content: Seq<char>) -> Result<
    Seq<char>,
    Failure,
> {
    if text::is_blank(content) {
        Ok(s)
    } else {
        match content_named(s, title) {
            Err(failure) => Err(failure),
            Ok(existing) => section_set(s, title, continued(existing, content)),
        }
    }
}

/// Adds a paragraph to a section.
pub fn append_section(body: &str, title: &str, content: &str) -> (r: Result<String, Error>)
    ensures
        error::agrees(r, section_extended(body@, title@, content@)),
{
    let added = text::chars_of(content);
    if text::blank(&added) {
        return Ok(text::string_of(&text::chars_of(body)));
    }
    let existing = match section_content(body, title) {
        Ok(Some(existing)) => text::chars_of(&existing),
        Ok(None) => Vec::new(),
        Err(error) => {
            return Err(error);
        },
    };
    let added = text::trimmed(&added, CharClass::LineEnd);
    let mut next: Vec<char> = Vec::new();
    if !text::blank(&existing) {
        text::push_all(&mut next, text::without_trail(&existing, CharClass::LineEnd));
        text::push_all(&mut next, &text::chars_of("\n\n"));
    }
    text::push_all(&mut next, added);
    proof {
        let present = content_named(body@, title@)->Ok_0;
        assert(next@ =~= continued(present, content@));
    }
    let source = Source::of(body);
    as_string(set_in(&source.chars, &text::chars_of(title), &next))
}

/// A body without a section.
pub open spec fn without_region(s: Seq<char>, region: RegionView) -> Seq<char> {
    let before = text::trim_end(s.take(region.start as int), CharClass::LineEnd);
    let after = text::trim_start(s.skip(region.end as int), CharClass::LineEnd);
    let gap = if before.len() > 0 && after.len() > 0 {
        "\n\n"@
    } else {
        Seq::empty()
    };
    let kept = before + gap + after;
    if kept.len() > 0 {
        closed_line(s, kept)
    } else {
        kept
    }
}

/// A body without the section with a title.
pub open spec fn section_removed(s: Seq<char>, title: Seq<char>) -> Result<Seq<char>, Failure> {
    if section_check(s, title) is Err {
        Err(section_check(s, title)->Err_0)
    } else {
        match section_named(s, title) {
            Err(failure) => Err(failure),
            Ok(None) => Err(error::about(ErrorKind::SectionNotFound, title)),
            Ok(Some(region)) => Ok(without_region(s, region)),
        }
    }
}

/// Removes a section.
pub fn remove_section(body: &str, title: &str) -> (r: Result<String, Error>)
    ensures
        error::agrees(r, section_removed(body@, title@)),
{
    let source = Source::of(body);
    let s = source.chars.as_slice();
    let title = text::chars_of(title);
    match ensure_section_writable(s, &title) {
        Ok(_) => {},
        Err(error) => {
            return Err(error);
        },
    }
    match unique_section(s, &title) {
        Err(error) => Err(error),
        Ok(None) => Err(Error::about(ErrorKind::SectionNotFound, &title)),
        Ok(Some(region)) => {
            let head = slice_subrange(s, 0, region.start);
            let tail = slice_subrange(s, region.end, s.len());
            assert(head@ =~= s@.take(region.start as int));
            assert(tail@ =~= s@.skip(region.end as int));
            let before = text::without_trail(head, CharClass::LineEnd);
            let after = text::without_lead(tail, CharClass::LineEnd);
            let mut out = text::copy_of(before);
            if before.len() > 0 && after.len() > 0 {
                text::push_all(&mut out, &text::chars_of("\n\n"));
            }
            let ghost gap = if before@.len() > 0 && after@.len() > 0 {
                "\n\n"@
            } else {
                Seq::empty()
            };
            assert(out@ =~= before@ + gap);
            text::push_all(&mut out, after);
            if out.len() > 0 {
                close_line(s, &mut out);
            }
            Ok(text::string_of(&out))
        },
    }
}

/// What separates a new item from the content before it.
pub open spec fn item_gap(content: Seq<char>) -> Seq<char> {
    let lines = text::lines(content);
    if content.len() == 0 {
        Seq::empty()
    } else if lines.len() > 0 && checkbox(text::trim_start(lines.last(), CharClass::Space)) is Some {
        "\n"@
    } else {
        "\n\n"@
    }
}

/// A body with a new line at the end of the content of a section itself.
pub open spec fn with_line(s: Seq<char>, start: int, end: int, line: Seq<char>) -> Seq<char> {
    let content = text::trim_both(s.subrange(start, end), CharClass::LineEnd);
    closed_line(
        s,
        s.take(start) + "\n"@ + content + item_gap(content) + line + "\n"@ + rest_behind(s, end),
    )
}

/// The line of a new checklist item.
pub open spec fn item_line(text: Seq<char>) -> Seq<char> {
    "- [ ] "@ + text::trim(text)
}

/// A body with a new checklist item in a section.
pub open spec fn item_added(s: Seq<char>, section: Seq<char>, text: Seq<char>) -> Result<
    Seq<char>,
    Failure,
> {
    if text::is_blank(text) {
        Err(error::plain(ErrorKind::EmptyItem))
    } else {
        match section_named(s, section) {
            Err(failure) => Err(failure),
            Ok(None) => section_set(s, section, item_line(text)),
            Ok(Some(region)) => {
                let start = region.content_start as int;
                let end = outline::direct_end(sections_in(s), region, 0) as int;
                match range_check(s, start, end, section) {
                    Err(failure) => Err(failure),
                    Ok(_) => Ok(with_line(s, start, end, item_line(text))),
                }
            },
        }
    }
}

proof fn lemma_direct_end_behind(regions: Seq<RegionView>, parent: RegionView, from: int, len: int)
    requires
        well_placed(regions, len),
        parent.content_start <= parent.end <= len,
    ensures
        parent.content_start <= outline::direct_end(regions, parent, from) <= len,
    decreases regions.len() - from,
{
    if 0 <= from < regions.len() && !outline::is_child(regions[from], parent) {
        lemma_direct_end_behind(regions, parent, from + 1, len);
    }
}

/// Writes what separates a new item from the content before it.
fn gap_of(content: &[char]) -> (r: Vec<char>)
    ensures
        r@ == item_gap(content@),
{
    let mut gap: Vec<char> = Vec::new();
    if content.len() == 0 {
        return gap;
    }
    let lines = text::lines_of(content);
    let ghost views = text::texts(lines@);
    text::push_all(&mut gap, &text::chars_of("\n"));
    if lines.len() > 0 {
        assert(views.last() == lines@[lines@.len() - 1]@);
        let last = text::without_lead(&lines[lines.len() - 1], CharClass::Space);
        if read_checkbox(last).is_some() {
            return gap;
        }
    }
    text::chars_of("\n\n")
}

/// Adds a line at the end of the content of a section itself.
fn add_line(s: &[char], start: usize, end: usize, line: &[char]) -> (r: Vec<char>)
    requires
        start <= end <= s@.len(),
    ensures
        r@ == with_line(s@, start as int, end as int, line@),
{
    let feed = text::chars_of("\n");
    let content = text::trimmed(slice_subrange(s, start, end), CharClass::LineEnd);
    let mut out = text::copy_of(slice_subrange(s, 0, start));
    assert(out@ =~= s@.take(start as int));
    text::push_all(&mut out, &feed);
    text::push_all(&mut out, content);
    text::push_all(&mut out, &gap_of(content));
    text::push_all(&mut out, line);
    text::push_all(&mut out, &feed);
    let ghost before = out@;
    if end < s.len() {
        let rest = slice_subrange(s, end, s.len());
        assert(rest@ =~= s@.skip(end as int));
        text::push_all(&mut out, &feed);
        text::push_all(&mut out, text::without_lead(rest, CharClass::LineEnd));
    }
    assert(out@ =~= before + rest_behind(s@, end as int));
    close_line(s, &mut out);
    out
}

/// Adds a checklist item to a section, or a section with it at the end of the body.
pub fn add_checklist_item(body: &str, section: &str, text: &str) -> (r: Result<String, Error>)
    ensures
        error::agrees(r, item_added(body@, section@, text@)),
{
    let words = text::chars_of(text);
    if text::blank(&words) {
        return Err(Error::plain(ErrorKind::EmptyItem));
    }
    let mut line = text::chars_of("- [ ] ");
    text::push_all(&mut line, text::trimmed(&words, CharClass::Space));
    let source = Source::of(body);
    let s = source.chars.as_slice();
    let title = text::chars_of(section);
    let sections = find_sections(s);
    match pick_section(&sections, &title, Ghost(s@.len() as int)) {
        Err(error) => Err(error),
        Ok(None) => as_string(set_in(s, &title, &line)),
        Ok(Some(region)) => {
            let end = outline::direct_content_end(&sections, &region);
            proof {
                lemma_direct_end_behind(sections_in(s@), region@, 0, s@.len() as int);
            }
            match ensure_range_writable(s, region.content_start, end, &title) {
                Err(error) => Err(error),
                Ok(_) => Ok(text::string_of(&add_line(s, region.content_start, end, &line))),
            }
        },
    }
}

/// Whether an item is in the section with a title and has a number there.
pub open spec fn is_item(item: ItemView, section: Seq<char>, index: nat) -> bool {
    item.index == index && (item.section matches Some(title) && text::alike(
        title,
        text::trim(section),
    ))
}

/// The first item from `i` on with a number in the section with a title.
pub open spec fn first_item(items: Seq<ItemView>, section: Seq<char>, index: nat, i: int) -> Option<
    int,
>
    decreases items.len() - i,
{
    if i < 0 || i >= items.len() {
        None
    } else if is_item(items[i], section, index) {
        Some(i)
    } else {
        first_item(items, section, index, i + 1)
    }
}

/// How an item's section is called in messages.
pub open spec fn item_label(item: ItemView) -> Seq<char> {
    match item.section {
        Some(title) => title,
        None => "(preamble)"@,
    }
}

/// What is demanded of an item that is to be changed.
pub open spec fn item_check(s: Seq<char>, item: ItemView) -> Result<(), Failure> {
    range_check(s, item.line.start as int, item.line.end as int, item_label(item))
}

/// The item with a number in the section with a title, where it can be changed.
pub open spec fn item_named(s: Seq<char>, section: Seq<char>, index: nat) -> Result<
    ItemView,
    Failure,
> {
    if index == 0 {
        Err(error::plain(ErrorKind::ZeroIndex))
    } else {
        match section_named(s, section) {
            Err(failure) => Err(failure),
            Ok(None) => Err(error::about(ErrorKind::SectionNotFound, section)),
            Ok(Some(_)) => match first_item(items_in(s), section, index, 0) {
                None => Err(
                    error::detailed(ErrorKind::ItemNotInSection, text::decimal(index), section),
                ),
                Some(i) => match item_check(s, items_in(s)[i]) {
                    Err(failure) => Err(failure),
                    Ok(_) => Ok(items_in(s)[i]),
                },
            },
        }
    }
}

/// The item with a number in the whole body, where it can be changed.
pub open spec fn item_numbered(s: Seq<char>, number: nat) -> Result<ItemView, Failure> {
    if 1 <= number <= items_in(s).len() {
        let item = items_in(s)[number - 1];
        match item_check(s, item) {
            Err(failure) => Err(failure),
            Ok(_) => Ok(item),
        }
    } else {
        Err(error::about(ErrorKind::ItemNotFound, text::decimal(number)))
    }
}

/// Whether a found item is the one that a specification gives, and lies in the text.
pub open spec fn names_item(
    result: Result<ChecklistItem, Error>,
    expected: Result<ItemView, Failure>,
    len: int,
) -> bool {
    match (result, expected) {
        (Ok(item), Ok(view)) => item@ == view && view.line.start <= view.at < view.line.end <= len,
        (Err(error), Err(failure)) => error@ == failure,
        _ => false,
    }
}

/// Checks that an item can be changed.
fn ensure_item_writable(s: &[char], item: &ChecklistItem) -> (r: Result<(), Error>)
    requires
        source::fits(s@),
    ensures
        error::decides(r, item_check(s@, item@)),
{
    let label = match &item.section {
        Some(title) => text::chars_of(title),
        None => text::chars_of("(preamble)"),
    };
    ensure_range_writable(s, item.line.start, item.line.end, &label)
}

/// Finds the item with a number in the section with a title.
fn checklist_in_section(s: &[char], section: &[char], index: usize) -> (r: Result<
    ChecklistItem,
    Error,
>)
    requires
        source::fits(s@),
    ensures
        names_item(r, item_named(s@, section@, index as nat), s@.len() as int),
{
    if index == 0 {
        return Err(Error::plain(ErrorKind::ZeroIndex));
    }
    match unique_section(s, section) {
        Err(error) => {
            return Err(error);
        },
        Ok(None) => {
            return Err(Error::about(ErrorKind::SectionNotFound, section));
        },
        Ok(Some(_)) => {},
    }
    let wanted = text::trimmed(section, CharClass::Space);
    let mut items = find_items(s);
    let ghost views = item_views(items@);
    let mut i: usize = 0;
    while i < items.len()
        invariant
            i <= items@.len(),
            index > 0,
            source::fits(s@),
            section_named(s@, section@) matches Ok(Some(_)),
            views == item_views(items@),
            views == items_in(s@),
            items_placed(views, s@.len() as int),
            wanted@ == text::trim(section@),
            first_item(views, section@, index as nat, i as int) == first_item(
                views,
                section@,
                index as nat,
                0,
            ),
        decreases items@.len() - i,
    {
        assert(views[i as int] == items@[i as int]@);
        let titled = match &items[i].section {
            Some(title) => text::same_folded(&text::chars_of(title), wanted),
            None => false,
        };
        if items[i].index == index && titled {
            let item = items.swap_remove(i);
            return match ensure_item_writable(s, &item) {
                Ok(_) => Ok(item),
                Err(error) => Err(error),
            };
        }
        i += 1;
    }
    let number = text::decimal_of(index as u64);
    Err(Error::detailed(ErrorKind::ItemNotInSection, &number, section))
}

/// Finds the item with a number in the whole body.
fn checklist_global(s: &[char], number: usize) -> (r: Result<ChecklistItem, Error>)
    requires
        source::fits(s@),
    ensures
        names_item(r, item_numbered(s@, number as nat), s@.len() as int),
{
    let mut items = find_items(s);
    let ghost views = item_views(items@);
    if number == 0 || number > items.len() {
        let number = text::decimal_of(number as u64);
        return Err(Error::about(ErrorKind::ItemNotFound, &number));
    }
    assert(views[number - 1] == items@[number - 1]@);
    let item = items.swap_remove(number - 1);
    match ensure_item_writable(s, &item) {
        Ok(_) => Ok(item),
        Err(error) => Err(error),
    }
}

/// The state character of a checkbox.
pub open spec fn state_char(checked: bool) -> char {
    if checked {
        'x'
    } else {
        ' '
    }
}

/// A body with the state of a checklist item set.
pub open spec fn item_set(s: Seq<char>, item: Result<ItemView, Failure>, checked: bool) -> Result<
    Seq<char>,
    Failure,
> {
    match item {
        Err(failure) => Err(failure),
        Ok(item) => Ok(s.update(item.at, state_char(checked))),
    }
}

/// A body with the state of a checklist item turned over.
pub open spec fn item_toggled(s: Seq<char>, item: Result<ItemView, Failure>) -> Result<
    Seq<char>,
    Failure,
> {
    match item {
        Err(failure) => Err(failure),
        Ok(found) => item_set(s, item, !found.checked),
    }
}

/// A body without the line of a checklist item.
pub open spec fn item_removed(s: Seq<char>, item: Result<ItemView, Failure>) -> Result<
    Seq<char>,
    Failure,
> {
    match item {
        Err(failure) => Err(failure),
        Ok(item) => Ok(s.take(item.line.start as int) + s.skip(item.line.end as int)),
    }
}

/// Sets the state of a checklist item.
fn replace_checkbox(s: &[char], item: &ChecklistItem, checked: bool) -> (r: String)
    requires
        item@.at < s@.len(),
    ensures
        r@ == s@.update(item@.at, state_char(checked)),
{
    let mut out = text::copy_of(s);
    out.set(
        item.checkbox,
        if checked {
            'x'
        } else {
            ' '
        },
    );
    text::string_of(&out)
}

/// Removes the line of a checklist item.
fn remove_line(s: &[char], item: &ChecklistItem) -> (r: String)
    requires
        item@.line.start <= item@.line.end <= s@.len(),
    ensures
        r@ == s@.take(item@.line.start as int) + s@.skip(item@.line.end as int),
{
    let head = slice_subrange(s, 0, item.line.start);
    let tail = slice_subrange(s, item.line.end, s.len());
    assert(head@ =~= s@.take(item@.line.start as int));
    assert(tail@ =~= s@.skip(item@.line.end as int));
    let mut out = text::copy_of(head);
    text::push_all(&mut out, tail);
    text::string_of(&out)
}

/// Sets the state of a checklist item of a section.
pub fn set_checklist_item(body: &str, section: &str, index: usize, checked: bool) -> (r: Result<
    String,
    Error,
>)
    ensures
        error::agrees(r, item_set(body@, item_named(body@, section@, index as nat), checked)),
{
    let source = Source::of(body);
    match checklist_in_section(&source.chars, &text::chars_of(section), index) {
        Err(error) => Err(error),
        Ok(item) => Ok(replace_checkbox(&source.chars, &item, checked)),
    }
}

/// Turns over the state of a checklist item of a section.
pub fn toggle_checklist_item(body: &str, section: &str, index: usize) -> (r: Result<String, Error>)
    ensures
        error::agrees(r, item_toggled(body@, item_named(body@, section@, index as nat))),
{
    let source = Source::of(body);
    match checklist_in_section(&source.chars, &text::chars_of(section), index) {
        Err(error) => Err(error),
        Ok(item) => Ok(replace_checkbox(&source.chars, &item, !item.checked)),
    }
}

/// Turns over the state of a checklist item of the body.
pub fn toggle_checklist_global(body: &str, global_index: usize) -> (r: Result<String, Error>)
    ensures
        error::agrees(r, item_toggled(body@, item_numbered(body@, global_index as nat))),
{
    let source = Source::of(body);
    match checklist_global(&source.chars, global_index) {
        Err(error) => Err(error),
        Ok(item) => Ok(replace_checkbox(&source.chars, &item, !item.checked)),
    }
}

/// Sets the state of a checklist item of the body.
pub fn set_checklist_global(body: &str, global_index: usize, checked: bool) -> (r: Result<
    String,
    Error,
>)
    ensures
        error::agrees(r, item_set(body@, item_numbered(body@, global_index as nat), checked)),
{
    let source = Source::of(body);
    match checklist_global(&source.chars, global_index) {
        Err(error) => Err(error),
        Ok(item) => Ok(replace_checkbox(&source.chars, &item, checked)),
    }
}

/// Removes a checklist item of the body.
pub fn remove_checklist_global(body: &str, global_index: usize) -> (r: Result<String, Error>)
    ensures
        error::agrees(r, item_removed(body@, item_numbered(body@, global_index as nat))),
{
    let source = Source::of(body);
    match checklist_global(&source.chars, global_index) {
        Err(error) => Err(error),
        Ok(item) => Ok(remove_line(&source.chars, &item)),
    }
}

/// Removes a checklist item of a section.
pub fn remove_checklist_item(body: &str, section: &str, index: usize) -> (r: Result<String, Error>)
    ensures
        error::agrees(r, item_removed(body@, item_named(body@, section@, index as nat))),
{
    let source = Source::of(body);
    match checklist_in_section(&source.chars, &text::chars_of(section), index) {
        Err(error) => Err(error),
        Ok(item) => Ok(remove_line(&source.chars, &item)),
    }
}

/// The state character of a checkbox is in its line.
pub proof fn lemma_checkbox(line: Seq<char>)
    ensures
        checkbox(line) matches Some(found) ==> 0 <= found.at < line.len() && (line[found.at] == ' '
            || line[found.at] == 'x' || line[found.at] == 'X') && found.checked == (line[found.at]
            != ' '),
{
}

/// Where the item of a line is.
pub proof fn lemma_line_task(s: Seq<char>, marks: MarksView, at: int, number: nat)
    requires
        0 <= at < s.len() <= usize::MAX,
    ensures
        line_task(s, marks, at, number) matches Some(task) ==> is_placed(s, task),
{
    let end = text::line_end(s, at);
    let line = text::line_at(s, at);
    let trimmed = text::trim_start(line, CharClass::Space);
    text::lemma_line_end(s, at);
    lemma_line_text(s.subrange(at, end));
    text::lemma_lead_is(line, CharClass::Space);
    lemma_checkbox(trimmed);
    if let Some(task) = line_task(s, marks, at, number) {
        let found = checkbox(trimmed)->0;
        let lead = line.len() - trimmed.len();
        assert(trimmed[found.at] == line[lead + found.at]);
        assert(line[lead + found.at] == s[at + lead + found.at]);
    }
}

/// Whether the state character of an item is in its line and tells its state.
pub open spec fn is_placed(s: Seq<char>, task: TaskView) -> bool {
    &&& task.line.start <= task.at < task.line.end <= s.len()
    &&& s[task.at] == ' ' || s[task.at] == 'x' || s[task.at] == 'X'
    &&& task.checked == (s[task.at] != ' ')
}

proof fn lemma_tasks_placed(
    s: Seq<char>,
    marks: MarksView,
    at: int,
    number: nat,
    read: Seq<TaskView>,
)
    requires
        0 <= at <= s.len() <= usize::MAX,
        forall|i: int| 0 <= i < read.len() ==> is_placed(s, #[trigger] read[i]),
    ensures
        forall|i: int|
            0 <= i < tasks_from(s, marks, at, number, read).len() ==> is_placed(
                s,
                #[trigger] tasks_from(s, marks, at, number, read)[i],
            ),
    decreases s.len() - at,
{
    if at < s.len() {
        text::lemma_line_end(s, at);
        lemma_line_task(s, marks, at, number);
        let end = text::line_end(s, at);
        match line_task(s, marks, at, number) {
            Some(task) => {
                lemma_tasks_placed(s, marks, end, number + 1, read.push(task));
                assert(tasks_from(s, marks, at, number, read) == tasks_from(
                    s,
                    marks,
                    end,
                    number + 1,
                    read.push(task),
                ));
            },
            None => {
                lemma_tasks_placed(s, marks, end, number + 1, read);
                assert(tasks_from(s, marks, at, number, read) == tasks_from(
                    s,
                    marks,
                    end,
                    number + 1,
                    read,
                ));
            },
        }
    }
}

/// An item is in its line, and whether it is checked is told by the one character at its place.
pub proof fn items_tell_the_body(s: Seq<char>, i: int)
    requires
        s.len() <= usize::MAX,
        0 <= i < items_in(s).len(),
    ensures
        ({
            let item = items_in(s)[i];
            &&& item.line.start <= item.at < item.line.end <= s.len()
            &&& s[item.at] == ' ' || s[item.at] == 'x' || s[item.at] == 'X'
            &&& item.checked == (s[item.at] != ' ')
        }),
{
    lemma_tasks_placed(s, marks(s), 0, 1, Seq::empty());
    let tasks = tasks_in(s, marks(s));
    assert(is_placed(s, tasks[i]));
}

/// Setting or turning over an item changes its state character and nothing else.
pub proof fn setting_changes_one_character(s: Seq<char>, number: nat, checked: bool, i: int)
    requires
        s.len() <= usize::MAX,
        item_numbered(s, number) is Ok,
        0 <= i < s.len(),
    ensures
        ({
            let item = item_numbered(s, number)->Ok_0;
            let changed = item_set(s, item_numbered(s, number), checked)->Ok_0;
            &&& changed.len() == s.len()
            &&& changed[i] == if i == item.at {
                state_char(checked)
            } else {
                s[i]
            }
        }),
{
    items_tell_the_body(s, number - 1);
}

/// Turning over an item and writing back the state that it had gives back the body, but for a check
/// mark that was a capital letter.
pub proof fn turning_back_restores(s: Seq<char>, number: nat)
    requires
        s.len() <= usize::MAX,
        item_numbered(s, number) is Ok,
        s[item_numbered(s, number)->Ok_0.at] != 'X',
    ensures
        ({
            let item = item_numbered(s, number)->Ok_0;
            let turned = item_toggled(s, item_numbered(s, number))->Ok_0;
            turned.update(item.at, state_char(item.checked)) == s
        }),
{
    items_tell_the_body(s, number - 1);
    let item = item_numbered(s, number)->Ok_0;
    let turned = item_toggled(s, item_numbered(s, number))->Ok_0;
    assert(turned.update(item.at, state_char(item.checked)) =~= s);
}

/// Setting the content of a section leaves all that stands before it as it is, and the sections
/// behind it up to the blank lines that set them off.
pub proof fn setting_a_section_keeps_the_others(s: Seq<char>, region: RegionView, content: Seq<char>)
    requires
        region.content_start <= region.end <= s.len(),
    ensures
        ({
            let changed = replaced(s, region, content);
            let tail = text::trim_start(s.skip(region.end as int), CharClass::LineEnd);
            &&& text::begins(changed, s.take(region.content_start as int))
            &&& text::finishes(changed, tail) || text::finishes(changed, tail + "\n"@)
        }),
{
    let start = region.content_start as int;
    let end = region.end as int;
    let head = s.take(start);
    let tail = text::trim_start(s.skip(end), CharClass::LineEnd);
    let body = head + padded(content) + rest_behind(s, end);
    let changed = replaced(s, region, content);
    assert(changed.subrange(0, start) =~= head);
    text::lemma_lead_is(s.skip(end), CharClass::LineEnd);
    if end >= s.len() {
        assert(tail =~= Seq::<char>::empty());
        assert(changed.subrange(changed.len() as int, changed.len() as int) =~= tail);
    } else {
        assert(body.subrange(body.len() - tail.len(), body.len() as int) =~= tail);
        if changed != body {
            let longer = tail + "\n"@;
            assert(changed =~= body + "\n"@);
            assert(changed.subrange(changed.len() - longer.len(), changed.len() as int)
                =~= longer);
        }
    }
}

/// A refused change names the comments: a section that overlaps the managed comments can be neither
/// set nor removed.
pub proof fn managed_comments_are_protected(s: Seq<char>, title: Seq<char>, content: Seq<char>)
    requires
        title_check(title) is Ok,
        comments::protected(s) matches Ok(Some(span)) && section_named(s, title) matches Ok(
            Some(region),
        ) && overlap(region.start as int, region.end as int, span),
    ensures
        section_set(s, title, content) == Err::<Seq<char>, Failure>(
            error::about(ErrorKind::ProtectedSection, title),
        ),
        section_removed(s, title) == Err::<Seq<char>, Failure>(
            error::about(ErrorKind::ProtectedSection, title),
        ),
{
}

} // verus!
