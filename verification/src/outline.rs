//! Headings and the sections that they open, in character indices.

use crate::outside::{MarkKind, RawMark};
use crate::source;
use crate::source::Source;
use crate::text;
use crate::text::CharClass;
use vstd::prelude::*;
use vstd::slice::slice_subrange;

verus! {

/// A range of characters.
#[derive(Clone, Copy, Debug, PartialEq, Eq, Structural)]
pub struct Span {
    pub start: usize,
    pub end: usize,
}

/// Whether a span is a range of a text of the given length.
pub open spec fn lies_in(span: Span, len: int) -> bool {
    span.start <= span.end <= len
}

/// Whether all spans are ranges of a text of the given length.
pub open spec fn all_lie_in(spans: Seq<Span>, len: int) -> bool {
    forall|i: int| 0 <= i < spans.len() ==> lies_in(#[trigger] spans[i], len)
}

/// Whether an index lies in one of the spans.
pub open spec fn covered(spans: Seq<Span>, at: int) -> bool {
    exists|i: int| 0 <= i < spans.len() && (#[trigger] spans[i]).start <= at < spans[i].end
}

/// The range of characters that a construct of the Markdown parser stands for.
pub open spec fn span_of(s: Seq<char>, mark: RawMark) -> Option<Span> {
    match (source::index_of(s, mark.start as int), source::index_of(s, mark.end as int)) {
        (Some(start), Some(end)) => if start <= end {
            Some(Span { start, end })
        } else {
            None
        },
        _ => None,
    }
}

/// The ranges of the constructs of one kind. There are none where one of the ranges does not lie in
/// the text.
pub open spec fn located(s: Seq<char>, marks: Seq<RawMark>, kind: MarkKind) -> Option<Seq<Span>>
    decreases marks.len(),
{
    if marks.len() == 0 {
        Some(Seq::empty())
    } else {
        match located(s, marks.drop_last(), kind) {
            None => None,
            Some(spans) => if marks.last().kind != kind {
                Some(spans)
            } else {
                match span_of(s, marks.last()) {
                    Some(span) => Some(spans.push(span)),
                    None => None,
                }
            },
        }
    }
}

proof fn lemma_located_none(s: Seq<char>, marks: Seq<RawMark>, kind: MarkKind, n: int)
    requires
        0 <= n <= marks.len(),
        located(s, marks.take(n), kind) is None,
    ensures
        located(s, marks, kind) is None,
    decreases marks.len() - n,
{
    if n < marks.len() {
        assert(marks.take(n + 1).drop_last() =~= marks.take(n));
        lemma_located_none(s, marks, kind, n + 1);
    } else {
        assert(marks.take(n) =~= marks);
    }
}

/// Finds the ranges of the constructs of one kind.
pub fn locate(body: &Source, marks: &Vec<RawMark>, kind: MarkKind) -> (r: Option<Vec<Span>>)
    requires
        body.well_formed(),
        source::fits(body@),
    ensures
        match r {
            Some(spans) => located(body@, marks@, kind) == Some(spans@) && all_lie_in(
                spans@,
                body@.len() as int,
            ),
            None => located(body@, marks@, kind) is None,
        },
{
    let mut spans: Vec<Span> = Vec::new();
    let mut i: usize = 0;
    while i < marks.len()
        invariant
            i <= marks@.len(),
            body.well_formed(),
            source::fits(body@),
            located(body@, marks@.take(i as int), kind) == Some(spans@),
            all_lie_in(spans@, body@.len() as int),
        decreases marks@.len() - i,
    {
        let mark = marks[i];
        assert(marks@.take(i + 1).drop_last() =~= marks@.take(i as int));
        assert(marks@.take(i + 1).last() == mark);
        if mark.kind == kind {
            let found = match (body.index(mark.start), body.index(mark.end)) {
                (Some(start), Some(end)) => if start <= end {
                    Some(Span { start, end })
                } else {
                    None
                },
                _ => None,
            };
            match found {
                Some(span) => {
                    spans.push(span);
                },
                None => {
                    proof {
                        lemma_located_none(body@, marks@, kind, i + 1);
                    }
                    return None;
                },
            }
        }
        i += 1;
    }
    assert(marks@.take(marks@.len() as int) =~= marks@);
    Some(spans)
}

/// Whether an index lies in one of the spans.
pub fn is_covered(spans: &Vec<Span>, at: usize) -> (r: bool)
    ensures
        r == covered(spans@, at as int),
{
    let mut i: usize = 0;
    while i < spans.len()
        invariant
            i <= spans@.len(),
            forall|k: int|
                0 <= k < i ==> !((#[trigger] spans@[k]).start <= at && at < spans@[k].end),
        decreases spans@.len() - i,
    {
        if spans[i].start <= at && at < spans[i].end {
            return true;
        }
        i += 1;
    }
    false
}

/// The title in what follows the opening hashes of a heading: closing hashes are no part of it
/// where a blank stands before them.
pub open spec fn heading_title(rest: Seq<char>) -> Seq<char> {
    let title = text::trim(rest);
    let hashes = text::trail(title, CharClass::Hash);
    let bare = title.take(title.len() - hashes);
    if hashes > 0 && bare.len() > 0 && text::in_class(CharClass::Blank, bare.last()) {
        text::trim_end(bare, CharClass::Space)
    } else {
        title
    }
}

/// The level and title of an ATX heading with a title.
pub open spec fn atx(line: Seq<char>) -> Option<(u8, Seq<char>)> {
    let level = text::lead(line, CharClass::Hash);
    let rest = line.skip(level as int);
    if 1 <= level <= 6 && (rest.len() == 0 || text::in_class(CharClass::Blank, rest[0]))
        && heading_title(rest).len() > 0 {
        Some((level as u8, heading_title(rest)))
    } else {
        None
    }
}

/// Reads an ATX heading.
pub fn atx_heading(line: &[char]) -> (r: Option<(u8, Vec<char>)>)
    ensures
        match r {
            Some((level, title)) => atx(line@) == Some((level, title@)),
            None => atx(line@) is None,
        },
{
    let level = text::lead_len(line, CharClass::Hash);
    if level < 1 || level > 6 {
        return None;
    }
    let rest = slice_subrange(line, level, line.len());
    assert(rest@ =~= line@.skip(level as int));
    if rest.len() > 0 && !text::has_class(CharClass::Blank, rest[0]) {
        return None;
    }
    let title = text::trimmed(rest, CharClass::Space);
    let hashes = text::trail_len(title, CharClass::Hash);
    let bare = slice_subrange(title, 0, title.len() - hashes);
    assert(bare@ =~= title@.take(title@.len() - hashes));
    let title = if hashes > 0 && bare.len() > 0 && text::has_class(
        CharClass::Blank,
        bare[bare.len() - 1],
    ) {
        text::without_trail(bare, CharClass::Space)
    } else {
        title
    };
    assert(title@ == heading_title(rest@));
    if title.len() == 0 {
        return None;
    }
    Some((level as u8, text::copy_of(title)))
}

/// A heading as specifications speak of it.
#[verifier::ext_equal]
pub struct HeadingView {
    pub title: Seq<char>,
    pub level: u8,
    pub start: usize,
    pub content_start: usize,
}

/// A heading: its line and what is behind it.
pub struct Heading {
    pub title: Vec<char>,
    pub level: u8,
    /// Where its line begins.
    pub start: usize,
    /// Where the next line begins.
    pub content_start: usize,
}

impl View for Heading {
    type V = HeadingView;

    open spec fn view(&self) -> HeadingView {
        HeadingView {
            title: self.title@,
            level: self.level,
            start: self.start,
            content_start: self.content_start,
        }
    }
}

/// A section as specifications speak of it.
#[verifier::ext_equal]
pub struct RegionView {
    pub title: Seq<char>,
    pub level: u8,
    pub start: usize,
    pub content_start: usize,
    pub end: usize,
}

/// A section: a heading and all up to the next heading that is not below it.
pub struct Region {
    pub title: Vec<char>,
    pub level: u8,
    pub start: usize,
    pub content_start: usize,
    pub end: usize,
}

impl View for Region {
    type V = RegionView;

    open spec fn view(&self) -> RegionView {
        RegionView {
            title: self.title@,
            level: self.level,
            start: self.start,
            content_start: self.content_start,
            end: self.end,
        }
    }
}

impl Region {
    /// Copies a section.
    pub fn copied(&self) -> (r: Region)
        ensures
            r@ == self@,
    {
        Region {
            title: text::copy_of(&self.title),
            level: self.level,
            start: self.start,
            content_start: self.content_start,
            end: self.end,
        }
    }
}

/// The headings in a list.
pub open spec fn heading_views(headings: Seq<Heading>) -> Seq<HeadingView> {
    headings.map_values(|h: Heading| h@)
}

/// The sections in a list.
pub open spec fn region_views(regions: Seq<Region>) -> Seq<RegionView> {
    regions.map_values(|r: Region| r@)
}

/// Where the first heading from `from` on begins that is at most as deep as `level`, or the end.
pub open spec fn next_peer(headings: Seq<HeadingView>, from: int, level: u8, len: usize) -> usize
    decreases headings.len() - from,
{
    if from < 0 || from >= headings.len() {
        len
    } else if headings[from].level <= level {
        headings[from].start
    } else {
        next_peer(headings, from + 1, level, len)
    }
}

/// The section that a heading opens.
pub open spec fn region(headings: Seq<HeadingView>, i: int, len: usize) -> RegionView {
    RegionView {
        title: headings[i].title,
        level: headings[i].level,
        start: headings[i].start,
        content_start: headings[i].content_start,
        end: next_peer(headings, i + 1, headings[i].level, len),
    }
}

/// The sections that headings open.
pub open spec fn regions(headings: Seq<HeadingView>, len: usize) -> Seq<RegionView> {
    Seq::new(headings.len(), |i: int| region(headings, i, len))
}

/// Whether headings stand in order in a text of the given length.
pub open spec fn in_order(headings: Seq<HeadingView>, len: usize) -> bool {
    &&& forall|i: int|
        0 <= i < headings.len() ==> (#[trigger] headings[i]).start < headings[i].content_start
            <= len
    &&& forall|i: int, j: int|
        0 <= i < j < headings.len() ==> (#[trigger] headings[i]).content_start <= (
        #[trigger] headings[j]).start
}

/// Whether headings lie in a text of the given length.
pub open spec fn headings_bounded(headings: Seq<HeadingView>, len: int) -> bool {
    forall|i: int|
        0 <= i < headings.len() ==> (#[trigger] headings[i]).start <= headings[i].content_start
            <= len
}

/// Whether sections lie in a text of the given length.
pub open spec fn bounded(regions: Seq<RegionView>, len: int) -> bool {
    forall|i: int|
        0 <= i < regions.len() ==> (#[trigger] regions[i]).start <= regions[i].content_start <= len
            && regions[i].end <= len
}

proof fn lemma_next_peer(headings: Seq<HeadingView>, from: int, level: u8, len: usize)
    requires
        headings_bounded(headings, len as int),
    ensures
        next_peer(headings, from, level, len) <= len,
    decreases headings.len() - from,
{
    if 0 <= from < headings.len() && headings[from].level > level {
        lemma_next_peer(headings, from + 1, level, len);
    }
}

/// Sections of headings that lie in a text lie in it.
pub proof fn lemma_bounded(headings: Seq<HeadingView>, len: usize)
    requires
        headings_bounded(headings, len as int),
    ensures
        bounded(regions(headings, len), len as int),
{
    assert forall|i: int| 0 <= i < headings.len() implies (#[trigger] regions(headings, len)[i]).end
        <= len by {
        lemma_next_peer(headings, i + 1, headings[i].level, len);
    }
}

/// The content of a section itself ends in the text.
pub proof fn lemma_direct_end(regions: Seq<RegionView>, parent: RegionView, from: int, len: int)
    requires
        bounded(regions, len),
        parent.end <= len,
    ensures
        direct_end(regions, parent, from) <= len,
    decreases regions.len() - from,
{
    if 0 <= from < regions.len() && !is_child(regions[from], parent) {
        lemma_direct_end(regions, parent, from + 1, len);
    }
}

/// Builds the sections that headings open.
pub fn regions_of(headings: &Vec<Heading>, len: usize) -> (r: Vec<Region>)
    ensures
        region_views(r@) == regions(heading_views(headings@), len),
{
    let ghost views = heading_views(headings@);
    let mut out: Vec<Region> = Vec::new();
    let mut i: usize = 0;
    while i < headings.len()
        invariant
            i <= headings@.len(),
            views == heading_views(headings@),
            region_views(out@) =~= regions(views, len).take(i as int),
        decreases headings@.len() - i,
    {
        let level = headings[i].level;
        let mut k: usize = i + 1;
        while k < headings.len() && headings[k].level > level
            invariant
                i < k <= headings@.len(),
                views == heading_views(headings@),
                next_peer(views, k as int, level, len) == next_peer(views, i + 1, level, len),
            decreases headings@.len() - k,
        {
            assert(views[k as int] == headings@[k as int]@);
            k += 1;
        }
        let end = if k < headings.len() {
            assert(views[k as int] == headings@[k as int]@);
            headings[k].start
        } else {
            len
        };
        let opened = Region {
            title: text::copy_of(&headings[i].title),
            level,
            start: headings[i].start,
            content_start: headings[i].content_start,
            end,
        };
        assert(views[i as int] == headings@[i as int]@);
        let ghost built = region_views(out@);
        let ghost added = opened@;
        assert(added == region(views, i as int, len));
        out.push(opened);
        assert(region_views(out@) =~= built.push(added));
        assert(regions(views, len).take(i + 1) =~= regions(views, len).take(i as int).push(added));
        i += 1;
    }
    assert(regions(views, len).take(i as int) =~= regions(views, len));
    out
}

/// Whether a section's content holds an index.
pub open spec fn holds(region: RegionView, at: int) -> bool {
    region.content_start <= at < region.end
}

/// The index of the deepest of the first `n` sections whose content holds an index, the last of
/// them where several are equally deep.
pub open spec fn deepest(regions: Seq<RegionView>, at: int, n: nat) -> Option<int>
    decreases n,
{
    if n == 0 || n > regions.len() {
        None
    } else {
        let last = n - 1;
        match deepest(regions, at, last as nat) {
            None => if holds(regions[last], at) {
                Some(last)
            } else {
                None
            },
            Some(best) => if holds(regions[last], at) && regions[last].level
                >= regions[best].level {
                Some(last)
            } else {
                Some(best)
            },
        }
    }
}

/// What `deepest` says: no section that holds the index is deeper, and none behind it is as deep.
pub proof fn lemma_deepest(regions: Seq<RegionView>, at: int, n: nat)
    requires
        n <= regions.len(),
    ensures
        match deepest(regions, at, n) {
            None => forall|k: int| 0 <= k < n ==> !holds(#[trigger] regions[k], at),
            Some(best) => 0 <= best < n && holds(regions[best], at) && (forall|k: int|
                0 <= k < n && holds(#[trigger] regions[k], at) ==> regions[k].level
                    <= regions[best].level && (k > best ==> regions[k].level
                    < regions[best].level)),
        },
    decreases n,
{
    if n > 0 {
        lemma_deepest(regions, at, (n - 1) as nat);
    }
}

/// Finds the deepest section whose content holds an index.
pub fn deepest_at(regions: &Vec<Region>, at: usize) -> (r: Option<usize>)
    ensures
        match r {
            Some(i) => i < regions@.len() && deepest(
                region_views(regions@),
                at as int,
                regions@.len(),
            ) == Some(i as int),
            None => deepest(region_views(regions@), at as int, regions@.len()) is None,
        },
{
    let ghost views = region_views(regions@);
    let mut best: Option<usize> = None;
    let mut i: usize = 0;
    while i < regions.len()
        invariant
            i <= regions@.len(),
            views == region_views(regions@),
            views.len() == regions@.len(),
            match best {
                Some(b) => b < i && deepest(views, at as int, i as nat) == Some(b as int),
                None => deepest(views, at as int, i as nat) is None,
            },
        decreases regions@.len() - i,
    {
        assert(views[i as int] == regions@[i as int]@);
        if regions[i].content_start <= at && at < regions[i].end {
            match best {
                Some(b) => {
                    assert(views[b as int] == regions@[b as int]@);
                    if regions[i].level >= regions[b].level {
                        best = Some(i);
                    }
                },
                None => {
                    best = Some(i);
                },
            }
        }
        i += 1;
    }
    best
}

/// Whether a section begins below another one, in its content.
pub open spec fn is_child(child: RegionView, parent: RegionView) -> bool {
    parent.content_start <= child.start < parent.end && child.level > parent.level
}

/// Where the first section from `from` on that lies below a section begins, or where that ends.
pub open spec fn direct_end(regions: Seq<RegionView>, parent: RegionView, from: int) -> usize
    decreases regions.len() - from,
{
    if from < 0 || from >= regions.len() {
        parent.end
    } else if is_child(regions[from], parent) {
        regions[from].start
    } else {
        direct_end(regions, parent, from + 1)
    }
}

/// Finds where the content of a section itself ends: at its first subsection.
pub fn direct_content_end(regions: &Vec<Region>, parent: &Region) -> (r: usize)
    ensures
        r == direct_end(region_views(regions@), parent@, 0),
{
    let ghost views = region_views(regions@);
    let mut i: usize = 0;
    while i < regions.len()
        invariant
            i <= regions@.len(),
            views == region_views(regions@),
            direct_end(views, parent@, i as int) == direct_end(views, parent@, 0),
        decreases regions@.len() - i,
    {
        assert(views[i as int] == regions@[i as int]@);
        if parent.content_start <= regions[i].start && regions[i].start < parent.end
            && regions[i].level > parent.level {
            return regions[i].start;
        }
        i += 1;
    }
    parent.end
}

/// Whether a section has the title, whatever the case of its letters.
pub open spec fn titled(region: RegionView, title: Seq<char>) -> bool {
    text::alike(region.title, title)
}

/// How many of the first `n` sections have the title.
pub open spec fn count_titled(regions: Seq<RegionView>, title: Seq<char>, n: nat) -> nat
    decreases n,
{
    if n == 0 || n > regions.len() {
        0
    } else {
        count_titled(regions, title, (n - 1) as nat) + if titled(regions[n - 1], title) {
            1nat
        } else {
            0nat
        }
    }
}

/// The index of the first section from `from` on with the title.
pub open spec fn first_titled(regions: Seq<RegionView>, title: Seq<char>, from: int) -> Option<int>
    decreases regions.len() - from,
{
    if from < 0 || from >= regions.len() {
        None
    } else if titled(regions[from], title) {
        Some(from)
    } else {
        first_titled(regions, title, from + 1)
    }
}

/// A section, none, or a count of several.
pub open spec fn only_titled(regions: Seq<RegionView>, title: Seq<char>) -> Result<
    Option<int>,
    nat,
> {
    let count = count_titled(regions, title, regions.len());
    if count > 1 {
        Err(count)
    } else {
        Ok(first_titled(regions, title, 0))
    }
}

/// The first section with a title.
pub proof fn lemma_first_titled(regions: Seq<RegionView>, title: Seq<char>, from: int, at: int)
    requires
        0 <= from <= at <= regions.len(),
        forall|k: int| from <= k < at ==> !titled(#[trigger] regions[k], title),
        at < regions.len() ==> titled(regions[at], title),
    ensures
        first_titled(regions, title, from) == if at < regions.len() {
            Some(at)
        } else {
            None
        },
    decreases at - from,
{
    if from < at {
        lemma_first_titled(regions, title, from + 1, at);
    }
}

/// Finds the one section with a title, and counts them where there are several.
pub fn find_titled(regions: &Vec<Region>, title: &[char]) -> (r: Result<Option<usize>, usize>)
    ensures
        match r {
            Ok(Some(i)) => i < regions@.len() && only_titled(region_views(regions@), title@) == Ok::<
                Option<int>,
                nat,
            >(Some(i as int)) && titled(region_views(regions@)[i as int], title@),
            Ok(None) => only_titled(region_views(regions@), title@) == Ok::<Option<int>, nat>(None),
            Err(count) => only_titled(region_views(regions@), title@) == Err::<Option<int>, nat>(
                count as nat,
            ),
        },
{
    let ghost views = region_views(regions@);
    let mut count: usize = 0;
    let mut first: usize = regions.len();
    let mut i: usize = 0;
    while i < regions.len()
        invariant
            i <= regions@.len(),
            views == region_views(regions@),
            views.len() == regions@.len(),
            count <= i,
            count == count_titled(views, title@, i as nat),
            first <= regions@.len(),
            forall|k: int| 0 <= k < i && k < first ==> !titled(#[trigger] views[k], title@),
            first < regions@.len() ==> first < i && titled(views[first as int], title@) && count
                >= 1,
            first == regions@.len() ==> count == 0,
        decreases regions@.len() - i,
    {
        assert(views[i as int] == regions@[i as int]@);
        if text::same_folded(&regions[i].title, title) {
            count += 1;
            if first == regions.len() {
                first = i;
            }
        }
        i += 1;
    }
    if count > 1 {
        return Err(count);
    }
    proof {
        lemma_first_titled(views, title@, 0, first as int);
    }
    if first < regions.len() {
        Ok(Some(first))
    } else {
        Ok(None)
    }
}

/// A text with the characters in the spans blanked, all but the line feeds: a character makes way
/// for as many spaces as it has bytes.
pub open spec fn blanked(s: Seq<char>, spans: Seq<Span>, n: nat) -> Seq<char>
    decreases n,
{
    if n == 0 || n > s.len() {
        Seq::empty()
    } else {
        let before = blanked(s, spans, (n - 1) as nat);
        let c = s[n - 1];
        if c != '\n' && covered(spans, n - 1) {
            before + Seq::new(source::width(c), |i: int| ' ')
        } else {
            before.push(c)
        }
    }
}

/// The text in which the characters in the spans are blanked.
pub open spec fn masked(s: Seq<char>, spans: Seq<Span>) -> Seq<char> {
    blanked(s, spans, s.len())
}

/// Blanks the characters in the spans.
pub fn mask_ranges(body: &[char], spans: &Vec<Span>) -> (r: Vec<char>)
    ensures
        r@ == masked(body@, spans@),
{
    let mut out: Vec<char> = Vec::new();
    let mut i: usize = 0;
    while i < body.len()
        invariant
            i <= body@.len(),
            out@ == blanked(body@, spans@, i as nat),
        decreases body@.len() - i,
    {
        let c = body[i];
        if c != '\n' && is_covered(spans, i) {
            let ghost before = out@;
            let width = source::width_of(c);
            let mut k: usize = 0;
            while k < width
                invariant
                    k <= width,
                    out@ == before + Seq::new(k as nat, |j: int| ' '),
                decreases width - k,
            {
                out.push(' ');
                k += 1;
                assert(out@ =~= before + Seq::new(k as nat, |j: int| ' '));
            }
        } else {
            out.push(c);
        }
        i += 1;
    }
    out
}

proof fn lemma_spaces(n: nat)
    ensures
        vstd::utf8::encode_utf8(Seq::new(n, |i: int| ' ')).len() == n,
    decreases n,
{
    let spaces = Seq::new(n, |i: int| ' ');
    if n > 0 {
        let fewer = Seq::new((n - 1) as nat, |i: int| ' ');
        assert(spaces.drop_first() =~= fewer);
        lemma_spaces((n - 1) as nat);
        assert(spaces[0] == ' ');
        assert(vstd::utf8::encode_scalar(' ' as u32).len() == 1);
    }
}

proof fn lemma_blanked_offset(s: Seq<char>, spans: Seq<Span>, n: nat)
    requires
        n <= s.len(),
    ensures
        vstd::utf8::encode_utf8(blanked(s, spans, n)).len() == source::offset(s, n as int),
    decreases n,
{
    if n == 0 {
        assert(s.take(0) =~= Seq::<char>::empty());
    } else {
        let before = blanked(s, spans, (n - 1) as nat);
        let c = s[n - 1];
        lemma_blanked_offset(s, spans, (n - 1) as nat);
        source::lemma_offset_step(s, n - 1);
        if c != '\n' && covered(spans, n - 1) {
            let spaces = Seq::new(source::width(c), |i: int| ' ');
            lemma_spaces(source::width(c));
            source::lemma_encode_concat(before, spaces);
        } else {
            let one = seq![c];
            assert(before.push(c) =~= before + one);
            source::lemma_encode_concat(before, one);
            assert(one.drop_first() =~= Seq::<char>::empty());
            assert(one[0] == c);
            assert(vstd::utf8::encode_utf8(one.drop_first()) =~= Seq::<u8>::empty());
            assert(vstd::utf8::encode_utf8(one) =~= vstd::utf8::encode_scalar(c as u32));
        }
    }
}

proof fn lemma_blanked_prefix(s: Seq<char>, spans: Seq<Span>, n: nat, m: nat)
    requires
        n <= m <= s.len(),
    ensures
        blanked(s, spans, n).len() <= blanked(s, spans, m).len(),
        blanked(s, spans, m).take(blanked(s, spans, n).len() as int) == blanked(s, spans, n),
    decreases m - n,
{
    let part = blanked(s, spans, n);
    if n < m {
        lemma_blanked_prefix(s, spans, n, (m - 1) as nat);
        let before = blanked(s, spans, (m - 1) as nat);
        let whole = blanked(s, spans, m);
        assert(whole.take(before.len() as int) =~= before);
        assert(whole.take(part.len() as int) =~= before.take(part.len() as int));
    } else {
        assert(part.take(part.len() as int) =~= part);
    }
}

/// Masking keeps byte offsets: the masked text has as many bytes as the text.
pub proof fn masking_keeps_the_size(s: Seq<char>, spans: Seq<Span>)
    ensures
        vstd::utf8::encode_utf8(masked(s, spans)).len() == vstd::utf8::encode_utf8(s).len(),
{
    lemma_blanked_offset(s, spans, s.len());
    assert(s.take(s.len() as int) =~= s);
}

/// Masking keeps what is not masked, and every line feed, at its byte offset.
pub proof fn masking_keeps_the_rest(s: Seq<char>, spans: Seq<Span>, i: int)
    requires
        source::fits(s),
        0 <= i < s.len(),
        s[i] == '\n' || !covered(spans, i),
    ensures
        source::index_of(masked(s, spans), source::offset(s, i) as int) matches Some(k) && k
            < masked(s, spans).len() && masked(s, spans)[k as int] == s[i],
{
    let whole = masked(s, spans);
    let before = blanked(s, spans, i as nat);
    let k = before.len() as int;
    lemma_blanked_prefix(s, spans, i as nat, s.len());
    lemma_blanked_prefix(s, spans, (i + 1) as nat, s.len());
    lemma_blanked_offset(s, spans, i as nat);
    assert(blanked(s, spans, (i + 1) as nat) == before.push(s[i]));
    assert(whole.take(k + 1)[k] == s[i]);
    assert(source::begins_at(whole, source::offset(s, i) as int, k));
    masking_keeps_the_size(s, spans);
    source::lemma_index_of(whole, source::offset(s, i) as int, k);
}

/// Masking blanks what is masked: at each byte of a masked character, but for the line feeds, stands
/// a space.
pub proof fn masking_blanks_the_spans(s: Seq<char>, spans: Seq<Span>, i: int, byte: int)
    requires
        source::fits(s),
        0 <= i < s.len(),
        s[i] != '\n',
        covered(spans, i),
        source::offset(s, i) <= byte < source::offset(s, i + 1),
    ensures
        source::index_of(masked(s, spans), byte) matches Some(k) && k < masked(s, spans).len()
            && masked(s, spans)[k as int] == ' ',
{
    let whole = masked(s, spans);
    let before = blanked(s, spans, i as nat);
    let after = blanked(s, spans, (i + 1) as nat);
    let n = byte - source::offset(s, i);
    let k = before.len() + n;
    let spaces = Seq::new(n as nat, |j: int| ' ');
    lemma_blanked_prefix(s, spans, (i + 1) as nat, s.len());
    lemma_blanked_offset(s, spans, i as nat);
    source::lemma_offset_step(s, i);
    assert(after == before + Seq::new(source::width(s[i]), |j: int| ' '));
    assert(whole.take(after.len() as int)[k] == ' ');
    assert(whole.take(k) =~= before + spaces) by {
        assert(whole.take(k) =~= whole.take(after.len() as int).take(k));
        assert(after.take(k) =~= before + spaces);
    }
    source::lemma_encode_concat(before, spaces);
    lemma_spaces(n as nat);
    assert(source::begins_at(whole, byte, k));
    masking_keeps_the_size(s, spans);
    source::lemma_index_of(whole, byte, k);
}

} // verus!
