//! The section of the comments registry as one of the sections of a body.

use crate::comments;
use crate::document;
use crate::edits;
use crate::markdown;
use crate::outline;
use crate::outline::{HeadingView, Span};
use crate::outside;
use crate::outside::MarkKind;
use crate::properties;
use crate::source;
use crate::text;
use crate::text::CharClass;
use vstd::prelude::*;

verus! {

/// Whether spans begin in the order in which they are listed.
pub open spec fn begin_in_order(spans: Seq<Span>) -> bool {
    forall|i: int, j: int|
        0 <= i < j < spans.len() ==> (#[trigger] spans[i]).start <= (#[trigger] spans[j]).start
}

/// Whether the Markdown parser reports the headings of a body outside its comments in the order in
/// which they stand.
pub open spec fn reports_in_order(s: Seq<char>) -> bool {
    document::document(s) matches Ok(document) && document::found_outside(
        s,
        document.ranges,
        MarkKind::Heading,
    ) matches Some(spans) && begin_in_order(spans)
}

/// The heading in a line is found by the lines and by the constructs alike.
proof fn lemma_same_heading(s: Seq<char>, spans: Seq<Span>, i: int)
    requires
        s.len() <= usize::MAX,
        0 <= i < spans.len(),
        spans[i].start <= s.len(),
    ensures
        document::heading_at(s, spans[i].start as int) matches Some(heading) ==> {
            &&& heading.start < s.len()
            &&& heading.start <= spans[i].start
            &&& edits::is_line_break(s, heading.start as int)
            &&& heading.start == text::line_start(s, spans[i].start as int)
            &&& markdown::line_heading(s, spans, heading.start as int) == Some(heading)
        },
{
    let at = spans[i].start as int;
    let start = text::line_start(s, at);
    text::lemma_line_start(s, at);
    if let Some(heading) = document::heading_at(s, at) {
        let line = s.subrange(start, text::line_end(s, start));
        text::lemma_line_end(s, start);
        if start == s.len() {
            assert(line =~= Seq::<char>::empty());
            assert(text::trim_end(line, CharClass::LineEnd) =~= line);
            assert(text::trim_start(line, CharClass::Space) =~= line);
            assert(outline::atx(line) is None);
        }
        edits::lemma_core_heading(s, start);
        assert(markdown::begins_in_line(s, spans, start));
    }
}

/// A heading of a line is one that the constructs give.
proof fn lemma_heading_given(s: Seq<char>, at: int, start: int)
    requires
        0 <= start < s.len(),
        0 <= at <= s.len(),
        text::line_start(s, at) == start,
    ensures
        (document::heading_at(s, at) is Some) == (outline::atx(
            text::trim_start(text::line_at(s, start), CharClass::Space),
        ) is Some),
{
    edits::lemma_core_heading(s, start);
}

/// Each heading that is read is that of a construct that is not excluded, in the order of those.
proof fn lemma_read(
    s: Seq<char>,
    spans: Seq<Span>,
    excluded: Seq<Span>,
    i: int,
    read: Seq<HeadingView>,
)
    requires
        s.len() <= usize::MAX,
        outline::all_lie_in(spans, s.len() as int),
        begin_in_order(spans),
        0 <= i <= spans.len(),
        is_read_up_to(s, spans, excluded, i, read),
    ensures
        is_read_up_to(
            s,
            spans,
            excluded,
            spans.len() as int,
            document::headings_from(s, spans, excluded, i, read),
        ),
    decreases spans.len() - i,
{
    if i < spans.len() {
        let at = spans[i].start as int;
        assert(outline::lies_in(spans[i], s.len() as int));
        if outline::covered(excluded, at) {
            lemma_read(s, spans, excluded, i + 1, read);
        } else {
            match document::heading_at(s, at) {
                Some(heading) => {
                    let next = read.push(heading);
                    assert(is_given(s, spans, excluded, i, heading));
                    assert forall|k: int| 0 <= k < next.len() implies has_span(
                        s,
                        spans,
                        excluded,
                        i + 1,
                        #[trigger] next[k],
                    ) by {
                        if k < read.len() {
                            assert(has_span(s, spans, excluded, i, read[k]));
                            let n = choose|n: int|
                                0 <= n < i && is_given(s, spans, excluded, n, read[k]);
                            assert(is_given(s, spans, excluded, n, next[k]));
                        }
                    }
                    assert forall|n: int| 0 <= n < i + 1 && !outline::covered(
                        excluded,
                        (#[trigger] spans[n]).start as int,
                    ) implies (document::heading_at(s, spans[n].start as int) matches Some(h)
                        ==> next.contains(h)) by {
                        if n < i {
                            if let Some(h) = document::heading_at(s, spans[n].start as int) {
                                let k = choose|k: int| 0 <= k < read.len() && read[k] == h;
                                assert(next[k] == h);
                            }
                        } else {
                            assert(next[read.len() as int] == heading);
                        }
                    }
                    assert forall|k: int, m: int| 0 <= k < m < next.len() implies (
                    #[trigger] next[k]).start <= (#[trigger] next[m]).start by {
                        if m == read.len() {
                            assert(has_span(s, spans, excluded, i, read[k]));
                            let n = choose|n: int|
                                0 <= n < i && is_given(s, spans, excluded, n, read[k]);
                            assert(outline::lies_in(spans[n], s.len() as int));
                            assert(spans[n].start <= spans[i].start);
                            lemma_starts_in_order(s, spans[n].start as int, at);
                            text::lemma_line_start(s, spans[n].start as int);
                            text::lemma_line_start(s, at);
                            assert(next[k] == read[k] && next[m] == heading);
                        } else {
                            assert(next[k] == read[k] && next[m] == read[m]);
                        }
                    }
                    lemma_read(s, spans, excluded, i + 1, next);
                },
                None => {
                    lemma_read_on(s, spans, excluded, i, read);
                    lemma_read(s, spans, excluded, i + 1, read);
                },
            }
        }
    }
}

proof fn lemma_read_on(
    s: Seq<char>,
    spans: Seq<Span>,
    excluded: Seq<Span>,
    i: int,
    read: Seq<HeadingView>,
)
    requires
        0 <= i < spans.len(),
        is_read_up_to(s, spans, excluded, i, read),
        outline::covered(excluded, spans[i].start as int) || document::heading_at(
            s,
            spans[i].start as int,
        ) is None,
    ensures
        is_read_up_to(s, spans, excluded, i + 1, read),
{
    assert forall|k: int| 0 <= k < read.len() implies has_span(
        s,
        spans,
        excluded,
        i + 1,
        #[trigger] read[k],
    ) by {
        assert(has_span(s, spans, excluded, i, read[k]));
        let n = choose|n: int| 0 <= n < i && is_given(s, spans, excluded, n, read[k]);
        assert(is_given(s, spans, excluded, n, read[k]));
    }
}

/// A line of a later index does not begin before that of an earlier one.
proof fn lemma_starts_in_order(s: Seq<char>, a: int, b: int)
    requires
        0 <= a <= b <= s.len(),
    ensures
        text::line_start(s, a) <= text::line_start(s, b),
{
    text::lemma_line_start(s, a);
    text::lemma_line_start(s, b);
    let x = text::line_start(s, a);
    let y = text::line_start(s, b);
    if y < x {
        assert(s[x - 1] == '\n');
    }
}

/// Whether a heading is that of a construct that is not excluded.
spec fn is_given(
    s: Seq<char>,
    spans: Seq<Span>,
    excluded: Seq<Span>,
    n: int,
    heading: HeadingView,
) -> bool {
    &&& !outline::covered(excluded, spans[n].start as int)
    &&& document::heading_at(s, spans[n].start as int) == Some(heading)
}

/// Whether a heading is that of one of the first constructs.
spec fn has_span(
    s: Seq<char>,
    spans: Seq<Span>,
    excluded: Seq<Span>,
    i: int,
    heading: HeadingView,
) -> bool {
    exists|n: int| 0 <= n < i && is_given(s, spans, excluded, n, heading)
}

/// Whether headings are those of the first constructs, in order.
spec fn is_read_up_to(
    s: Seq<char>,
    spans: Seq<Span>,
    excluded: Seq<Span>,
    i: int,
    read: Seq<HeadingView>,
) -> bool {
    &&& forall|k: int|
        0 <= k < read.len() ==> has_span(s, spans, excluded, i, #[trigger] read[k])
    &&& forall|n: int|
        0 <= n < i && !outline::covered(excluded, (#[trigger] spans[n]).start as int) ==> (
        document::heading_at(s, spans[n].start as int) matches Some(h) ==> read.contains(h))
    &&& forall|k: int, m: int|
        0 <= k < m < read.len() ==> (#[trigger] read[k]).start <= (#[trigger] read[m]).start
}

/// The spans that are not covered are those of the list that are not.
proof fn lemma_uncovered_are(spans: Seq<Span>, excluded: Seq<Span>, n: nat)
    requires
        n <= spans.len(),
    ensures
        forall|k: int|
            0 <= k < markdown::uncovered(spans, excluded, n).len() ==> exists|m: int|
                0 <= m < n && #[trigger] spans[m] == #[trigger] markdown::uncovered(
                    spans,
                    excluded,
                    n,
                )[k] && !outline::covered(excluded, spans[m].start as int),
        forall|m: int|
            0 <= m < n && !outline::covered(excluded, (#[trigger] spans[m]).start as int)
                ==> markdown::uncovered(spans, excluded, n).contains(spans[m]),
    decreases n,
{
    if n > 0 {
        let before = markdown::uncovered(spans, excluded, (n - 1) as nat);
        let all = markdown::uncovered(spans, excluded, n);
        lemma_uncovered_are(spans, excluded, (n - 1) as nat);
        assert forall|m: int|
            0 <= m < n && !outline::covered(
                excluded,
                (#[trigger] spans[m]).start as int,
            ) implies all.contains(spans[m]) by {
            if m < n - 1 {
                let k = choose|k: int| 0 <= k < before.len() && before[k] == spans[m];
                assert(all[k] == spans[m]);
            } else {
                assert(all[all.len() - 1] == spans[m]);
            }
        }
        assert forall|k: int| 0 <= k < all.len() implies exists|m: int|
            0 <= m < n && #[trigger] spans[m] == #[trigger] all[k] && !outline::covered(
                excluded,
                spans[m].start as int,
            ) by {
            if k < before.len() {
                assert(all[k] == before[k]);
                let m = choose|m: int|
                    0 <= m < n - 1 && spans[m] == before[k] && !outline::covered(
                        excluded,
                        spans[m].start as int,
                    );
                assert(spans[m] == all[k]);
            } else {
                assert(spans[n - 1] == all[k]);
            }
        }
    }
}

/// The headings of a body in the order of the lines and in that of the constructs: the same ones.
spec fn are_alike(h: Seq<HeadingView>, g: Seq<HeadingView>) -> bool {
    &&& forall|k: int| 0 <= k < h.len() ==> g.contains(#[trigger] h[k])
    &&& forall|k: int| 0 <= k < g.len() ==> h.contains(#[trigger] g[k])
    &&& forall|k: int, m: int|
        0 <= k < m < h.len() ==> (#[trigger] h[k]).start <= (#[trigger] h[m]).start
    &&& forall|k: int, m: int|
        0 <= k < m < g.len() ==> (#[trigger] g[k]).start < (#[trigger] g[m]).start
}

proof fn lemma_alike(s: Seq<char>)
    requires
        source::fits(s),
        reports_in_order(s),
        markdown::marks(s).protected is Some,
    ensures
        ({
            let ranges = document::document(s)->Ok_0.ranges;
            let spans = document::found_outside(s, ranges, MarkKind::Heading)->0;
            are_alike(
                document::headings_from(s, spans, ranges, 0, Seq::empty()),
                properties::headings_in(s),
            )
        }),
{
    let ranges = document::document(s)->Ok_0.ranges;
    let spans = document::found_outside(s, ranges, MarkKind::Heading)->0;
    let kept = markdown::uncovered(spans, ranges, spans.len());
    let h = document::headings_from(s, spans, ranges, 0, Seq::empty());
    let g = properties::headings_in(s);
    document::lemma_fits_len(s);
    document::lemma_located_lie_in(
        s,
        outside::commonmark(outline::masked(s, ranges)),
        MarkKind::Heading,
    );
    assert(markdown::marks(s).headings == kept);
    lemma_read(s, spans, ranges, 0, Seq::empty());
    lemma_uncovered_are(spans, ranges, spans.len());
    properties::lemma_headings_in(s);
    assert forall|k: int| 0 <= k < h.len() implies g.contains(#[trigger] h[k]) by {
        assert(has_span(s, spans, ranges, spans.len() as int, h[k]));
        let n = choose|n: int| 0 <= n < spans.len() && is_given(s, spans, ranges, n, h[k]);
        assert(outline::lies_in(spans[n], s.len() as int));
        assert(kept.contains(spans[n]));
        let m = choose|m: int| 0 <= m < kept.len() && kept[m] == spans[n];
        lemma_same_heading(s, kept, m);
        lemma_line_read(s, kept, h[k].start as int);
    }
    assert forall|k: int| 0 <= k < g.len() implies h.contains(#[trigger] g[k]) by {
        assert(properties::is_heading(s, kept, g[k]));
        let n = choose|n: int|
            0 <= n < kept.len() && text::line_start(s, (#[trigger] kept[n]).start as int)
                == g[k].start;
        let m = choose|m: int|
            0 <= m < spans.len() && #[trigger] spans[m] == kept[n] && !outline::covered(
                ranges,
                spans[m].start as int,
            );
        assert(outline::lies_in(spans[m], s.len() as int));
        lemma_heading_given(s, spans[m].start as int, g[k].start as int);
        let found = document::heading_at(s, spans[m].start as int)->0;
        assert(h.contains(found));
        lemma_same_heading(s, kept, n);
        lemma_read_at(s, kept, k);
    }
}

/// The heading of a line is among those of the body.
proof fn lemma_line_read(s: Seq<char>, spans: Seq<Span>, at: int)
    requires
        s.len() <= usize::MAX,
        0 <= at < s.len(),
        edits::is_line_break(s, at),
        markdown::line_heading(s, spans, at) is Some,
    ensures
        markdown::line_headings(s, spans, 0, Seq::empty()).contains(
            markdown::line_heading(s, spans, at)->0,
        ),
{
    let len = s.len() as int;
    let all = edits::headings_between(s, spans, 0, len);
    edits::lemma_all_headings(s, spans, 0, Seq::empty());
    edits::lemma_split(s, spans, 0, at, len);
    let first = edits::headings_between(s, spans, 0, at);
    assert(Seq::<HeadingView>::empty() + all =~= all);
    assert(all[first.len() as int] == markdown::line_heading(s, spans, at)->0);
}

/// A heading of a body is that of its line.
proof fn lemma_read_at(s: Seq<char>, spans: Seq<Span>, k: int)
    requires
        s.len() <= usize::MAX,
        0 <= k < markdown::line_headings(s, spans, 0, Seq::empty()).len(),
    ensures
        ({
            let heading = markdown::line_headings(s, spans, 0, Seq::empty())[k];
            markdown::line_heading(s, spans, heading.start as int) == Some(heading)
        }),
{
    let len = s.len() as int;
    let all = edits::headings_between(s, spans, 0, len);
    edits::lemma_all_headings(s, spans, 0, Seq::empty());
    assert(Seq::<HeadingView>::empty() + all =~= all);
    edits::lemma_between(s, spans, 0, len);
    assert(edits::is_heading_of(s, spans, 0, len, all[k]));
}

/// A section that a heading opens in the one list it opens in the other one, where it is not empty.
proof fn lemma_region_kept(h: Seq<HeadingView>, g: Seq<HeadingView>, len: usize, k: int) -> (i: int)
    requires
        are_alike(h, g),
        0 <= k < h.len(),
        outline::region(h, k, len).end > h[k].start,
    ensures
        0 <= i < g.len(),
        outline::region(g, i, len) == outline::region(h, k, len),
{
    let level = h[k].level;
    assert(g.contains(h[k]));
    let i = choose|i: int| 0 <= i < g.len() && g[i] == h[k];
    let m = edits::find_peer(h, k + 1, level);
    edits::lemma_peer(h, k + 1, level, len, m);
    let y = if m < h.len() {
        assert(g.contains(h[m]));
        choose|y: int| 0 <= y < g.len() && g[y] == h[m]
    } else {
        g.len() as int
    };
    if y < i {
        assert(g[y].start < g[i].start);
    }
    assert forall|x: int| i + 1 <= x < y implies (#[trigger] g[x]).level > level by {
        assert(h.contains(g[x]));
        let z = choose|z: int| 0 <= z < h.len() && h[z] == g[x];
        assert(g[i].start < g[x].start);
        if z < k {
            assert(h[z].start <= h[k].start);
        }
        if m < h.len() {
            assert(g[x].start < g[y].start);
            if z > m {
                assert(h[m].start <= h[z].start);
            }
        }
    }
    edits::lemma_peer(g, i + 1, level, len, y);
    i
}

/// A section of the list by lines is one of the list by constructs.
proof fn lemma_region_back(h: Seq<HeadingView>, g: Seq<HeadingView>, len: usize, i: int) -> (k: int)
    requires
        are_alike(h, g),
        0 <= i < g.len(),
        g[i].start < len,
    ensures
        0 <= k < h.len(),
        outline::region(g, i, len) == outline::region(h, k, len),
{
    assert(h.contains(g[i]));
    let first = choose|k: int| 0 <= k < h.len() && h[k] == g[i];
    let k = lemma_last_of(h, g[i], first);
    let level = g[i].level;
    let m = edits::find_peer(h, k + 1, level);
    edits::lemma_peer(h, k + 1, level, len, m);
    if m < h.len() {
        assert(h[k].start <= h[m].start);
        if h[m].start == h[k].start {
            assert(g.contains(h[m]));
            let y = choose|y: int| 0 <= y < g.len() && g[y] == h[m];
            if y < i {
                assert(g[y].start < g[i].start);
            } else if i < y {
                assert(g[i].start < g[y].start);
            }
        }
    }
    let j = lemma_region_kept(h, g, len, k);
    if j < i {
        assert(g[j].start < g[i].start);
    } else if i < j {
        assert(g[i].start < g[j].start);
    }
    k
}

/// The last place of a heading in a list.
proof fn lemma_last_of(h: Seq<HeadingView>, heading: HeadingView, k: int) -> (last: int)
    requires
        0 <= k < h.len(),
        h[k] == heading,
    ensures
        k <= last < h.len(),
        h[last] == heading,
        forall|x: int| last < x < h.len() ==> #[trigger] h[x] != heading,
    decreases h.len() - k,
{
    if exists|x: int| k < x < h.len() && #[trigger] h[x] == heading {
        let x = choose|x: int| k < x < h.len() && #[trigger] h[x] == heading;
        lemma_last_of(h, heading, x)
    } else {
        k
    }
}

/// The section of the registry is one of the sections of a body, and the only one with its range. It
/// holds the registry marker in its content, and no section that does is deeper.
pub proof fn the_registry_is_one_section(s: Seq<char>)
    requires
        source::fits(s),
        reports_in_order(s),
        markdown::marks(s).protected is Some,
    ensures
        ({
            let section = document::document(s)->Ok_0.registry->0.section;
            let sections = markdown::sections_in(s);
            &&& exists|i: int|
                0 <= i < sections.len() && #[trigger] sections[i] == section
            &&& forall|i: int, j: int|
                0 <= i < sections.len() && 0 <= j < sections.len() && (
                #[trigger] sections[i]).start == section.start && (#[trigger] sections[j]).start
                    == section.start ==> i == j
            &&& exists|i: int|
                0 <= i < document::tokens(s)->Ok_0.len() && (#[trigger] document::tokens(
                    s,
                )->Ok_0[i]) is Registry && document::is_innermost(
                    sections,
                    section,
                    document::token_span(document::tokens(s)->Ok_0[i]).start as int,
                )
        }),
{
    let ranges = document::document(s)->Ok_0.ranges;
    let section = document::document(s)->Ok_0.registry->0.section;
    let spans = document::found_outside(s, ranges, MarkKind::Heading)->0;
    let h = document::headings_from(s, spans, ranges, 0, Seq::empty());
    let g = properties::headings_in(s);
    let len = s.len() as usize;
    let sections = markdown::sections_in(s);
    let others = document::structural_sections(s, ranges)->0;
    let list = document::tokens(s)->Ok_0;
    document::lemma_fits_len(s);
    document::registry_is_a_section(s);
    lemma_alike(s);
    properties::lemma_headings_in(s);
    let n = choose|n: int|
        0 <= n < list.len() && (#[trigger] list[n]) is Registry && document::is_innermost(
            others,
            section,
            document::token_span(list[n]).start as int,
        );
    let at = document::token_span(list[n]).start as int;
    let k = choose|k: int| 0 <= k < others.len() && others[k] == section;
    assert(others[k] == outline::region(h, k, len));
    lemma_heading_bounds(s, ranges, spans, k);
    let i = lemma_region_kept(h, g, len, k);
    assert(sections[i] == section);
    assert forall|x: int, y: int|
        0 <= x < sections.len() && 0 <= y < sections.len() && (#[trigger] sections[x]).start
            == section.start && (#[trigger] sections[y]).start == section.start implies x == y by {
        assert(sections[x].start == g[x].start && sections[y].start == g[y].start);
        if x < y {
            assert(g[x].start < g[y].start);
        } else if y < x {
            assert(g[y].start < g[x].start);
        }
    }
    assert forall|x: int|
        0 <= x < sections.len() && outline::holds(#[trigger] sections[x], at) implies sections[x].level
        <= section.level by {
        assert(properties::is_heading(s, markdown::marks(s).headings, g[x]));
        let y = lemma_region_back(h, g, len, x);
        assert(others[y] == sections[x]);
    }
    assert(document::is_innermost(sections, section, at));
    assert(list[n] is Registry);
}

/// A section that has something in common with the section of the comments registry can neither be set
/// nor extended nor removed by a title that it has.
pub proof fn sections_with_comments_are_kept(
    s: Seq<char>,
    i: int,
    title: Seq<char>,
    content: Seq<char>,
)
    requires
        0 <= i < markdown::sections_in(s).len(),
        outline::titled(markdown::sections_in(s)[i], text::trim(title)),
        comments::protected(s) matches Ok(Some(span)) && markdown::overlap(
            markdown::sections_in(s)[i].start as int,
            markdown::sections_in(s)[i].end as int,
            span,
        ),
    ensures
        markdown::section_set(s, title, content) is Err,
        !text::is_blank(content) ==> markdown::section_extended(s, title, content) is Err,
        markdown::section_removed(s, title) is Err,
{
    edits::lemma_titled(markdown::sections_in(s), text::trim(title));
}

/// A heading of the constructs begins before its content.
proof fn lemma_heading_bounds(s: Seq<char>, ranges: Seq<Span>, spans: Seq<Span>, k: int)
    requires
        source::fits(s),
        reports_in_order(s),
        markdown::marks(s).protected is Some,
        ranges == document::document(s)->Ok_0.ranges,
        document::found_outside(s, ranges, MarkKind::Heading) == Some(spans),
        0 <= k < document::headings_from(s, spans, ranges, 0, Seq::empty()).len(),
    ensures
        ({
            let heading = document::headings_from(s, spans, ranges, 0, Seq::empty())[k];
            heading.start < heading.content_start
        }),
{
    let h = document::headings_from(s, spans, ranges, 0, Seq::empty());
    let g = properties::headings_in(s);
    document::lemma_fits_len(s);
    lemma_alike(s);
    properties::lemma_headings_in(s);
    assert(g.contains(h[k]));
    let i = choose|i: int| 0 <= i < g.len() && g[i] == h[k];
    assert(g[i].start < g[i].content_start);
}

} // verus!
