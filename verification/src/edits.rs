//! What is read of a body after text was put into it, taken out of it or replaced in it.

use crate::error::Failure;
use crate::markdown;
use crate::outline;
use crate::outline::{HeadingView, RegionView, Span};
use crate::properties;
use crate::text;
use crate::text::CharClass;
use vstd::prelude::*;

verus! {

/// A line without the characters that end it.
pub open spec fn line_core(s: Seq<char>, at: int) -> Seq<char> {
    text::trim_end(s.subrange(at, text::line_end(s, at)), CharClass::LineEnd)
}

/// Whether all characters of a text belong to a class.
pub open spec fn all_in(s: Seq<char>, class: CharClass) -> bool {
    forall|i: int| 0 <= i < s.len() ==> text::in_class(class, #[trigger] s[i])
}

/// Characters of a class around a text make no difference to it without them.
pub proof fn lemma_trim_around(before: Seq<char>, s: Seq<char>, after: Seq<char>, class: CharClass)
    requires
        all_in(before, class),
        all_in(after, class),
    ensures
        text::trim_both(before + s + after, class) == text::trim_both(s, class),
{
    let whole = before + s + after;
    let lead = text::lead(s, class) as int;
    let first = text::trim_start(s, class);
    text::lemma_lead_is(s, class);
    if first.len() == 0 {
        assert(forall|i: int| 0 <= i < s.len() ==> text::in_class(class, #[trigger] s[i]));
        assert forall|i: int| 0 <= i < whole.len() implies text::in_class(
            class,
            #[trigger] whole[i],
        ) by {
            if before.len() <= i < before.len() + s.len() {
                assert(whole[i] == s[i - before.len()]);
            } else if i >= before.len() + s.len() {
                assert(whole[i] == after[i - before.len() - s.len()]);
            } else {
                assert(whole[i] == before[i]);
            }
        }
        text::lemma_lead(whole, class, whole.len() as int);
        assert(text::trim_start(whole, class) =~= Seq::<char>::empty());
        assert(first =~= Seq::<char>::empty());
        assert(text::trim_end(Seq::<char>::empty(), class) =~= Seq::<char>::empty());
    } else {
        let from = before.len() + lead;
        assert forall|i: int| 0 <= i < from implies text::in_class(class, #[trigger] whole[i]) by {
            if i < before.len() {
                assert(whole[i] == before[i]);
            } else {
                assert(whole[i] == s[i - before.len()]);
            }
        }
        assert(whole[from] == s[lead]);
        text::lemma_lead(whole, class, from);
        assert(text::trim_start(whole, class) =~= first + after);
        lemma_trim_behind(first, after, class);
    }
}

/// Characters of a class behind a text make no difference to it without those at its end.
pub proof fn lemma_trim_behind(s: Seq<char>, after: Seq<char>, class: CharClass)
    requires
        all_in(after, class),
    ensures
        text::trim_end(s + after, class) == text::trim_end(s, class),
{
    let whole = s + after;
    let trail = text::trail(s, class) as int;
    let n = trail + after.len();
    text::lemma_trail_is(s, class);
    assert forall|i: int| whole.len() - n <= i < whole.len() implies text::in_class(
        class,
        #[trigger] whole[i],
    ) by {
        if i < s.len() {
            assert(whole[i] == s[i]);
        } else {
            assert(whole[i] == after[i - s.len()]);
        }
    }
    if n < whole.len() {
        assert(whole[whole.len() - n - 1] == s[s.len() - trail - 1]);
    }
    text::lemma_trail(whole, class, n);
    assert(text::trim_end(whole, class) =~= text::trim_end(s, class));
}

/// A text without characters of a class around it has none.
pub proof fn lemma_trim_again(s: Seq<char>, class: CharClass)
    ensures
        text::trim_both(text::trim_both(s, class), class) == text::trim_both(s, class),
{
    let first = text::trim_start(s, class);
    let lead = text::lead(s, class) as int;
    let both = text::trim_both(s, class);
    text::lemma_lead_is(s, class);
    text::lemma_trail_is(first, class);
    let before = s.take(lead);
    let after = first.skip(first.len() - text::trail(first, class));
    assert forall|i: int| 0 <= i < before.len() implies text::in_class(
        class,
        #[trigger] before[i],
    ) by {
        assert(before[i] == s[i]);
    }
    assert forall|i: int| 0 <= i < after.len() implies text::in_class(
        class,
        #[trigger] after[i],
    ) by {
        assert(after[i] == first[first.len() - text::trail(first, class) + i]);
    }
    assert(before + both + after =~= s);
    lemma_trim_around(before, both, after, class);
}

/// A character that ends a line makes no difference to the heading in the line.
proof fn lemma_atx_closed(line: Seq<char>, c: char)
    requires
        c == '\r' || c == '\n',
    ensures
        outline::atx(text::trim_start(line.push(c), CharClass::Space)) == outline::atx(
            text::trim_start(line, CharClass::Space),
        ),
{
    let t = text::trim_start(line, CharClass::Space);
    let longer = line.push(c);
    let lead = text::lead(line, CharClass::Space) as int;
    text::lemma_lead_is(line, CharClass::Space);
    if t.len() == 0 {
        text::lemma_lead(longer, CharClass::Space, longer.len() as int);
        assert(text::trim_start(longer, CharClass::Space) =~= Seq::<char>::empty());
        assert(t =~= Seq::<char>::empty());
    } else {
        assert(longer[lead] == line[lead]);
        text::lemma_lead(longer, CharClass::Space, lead);
        assert(text::trim_start(longer, CharClass::Space) =~= t.push(c));
        let level = text::lead(t, CharClass::Hash) as int;
        text::lemma_lead_is(t, CharClass::Hash);
        let more = t.push(c);
        assert forall|i: int| 0 <= i < level implies text::in_class(
            CharClass::Hash,
            #[trigger] more[i],
        ) by {
            assert(more[i] == t[i]);
        }
        text::lemma_lead(more, CharClass::Hash, level);
        let rest = t.skip(level);
        assert(more.skip(level) =~= rest.push(c));
        assert(rest.push(c) =~= Seq::<char>::empty() + rest + seq![c]);
        lemma_trim_around(Seq::empty(), rest, seq![c], CharClass::Space);
        if rest.len() == 0 {
            assert(rest.push(c)[0] == c);
            assert(text::trim(rest) =~= Seq::<char>::empty());
        }
    }
}

proof fn lemma_atx_trimmed(line: Seq<char>)
    ensures
        outline::atx(
            text::trim_start(text::trim_end(line, CharClass::LineEnd), CharClass::Space),
        ) == outline::atx(text::trim_start(line, CharClass::Space)),
    decreases line.len(),
{
    if line.len() > 0 && text::in_class(CharClass::LineEnd, line.last()) {
        let less = line.drop_last();
        lemma_atx_trimmed(less);
        lemma_atx_closed(less, line.last());
        assert(less.push(line.last()) =~= line);
        text::lemma_trail_is(less, CharClass::LineEnd);
        assert(text::trim_end(line, CharClass::LineEnd) =~= text::trim_end(
            less,
            CharClass::LineEnd,
        ));
    } else {
        assert(text::trim_end(line, CharClass::LineEnd) =~= line);
    }
}

/// The heading in a line is that in the line without the characters that end it.
pub proof fn lemma_core_heading(s: Seq<char>, at: int)
    requires
        0 <= at < s.len(),
    ensures
        outline::atx(text::trim_start(text::line_at(s, at), CharClass::Space)) == outline::atx(
            text::trim_start(line_core(s, at), CharClass::Space),
        ),
{
    let line = s.subrange(at, text::line_end(s, at));
    text::lemma_line_end(s, at);
    lemma_atx_trimmed(line);
    properties::lemma_finishes_one(line);
    properties::lemma_finishes_two(line);
    let held = text::line_text(line);
    if text::finishes(line, seq!['\r', '\n']) {
        lemma_atx_closed(held, '\r');
        lemma_atx_closed(held.push('\r'), '\n');
        assert(held.push('\r').push('\n') =~= line);
    } else if text::finishes(line, seq!['\n']) {
        lemma_atx_closed(held, '\n');
        assert(held.push('\n') =~= line);
    }
}

/// The headings of the lines that begin from an index on and before another one.
pub open spec fn headings_between(s: Seq<char>, spans: Seq<Span>, from: int, to: int) -> Seq<
    HeadingView,
>
    decreases s.len() - from,
{
    if from < 0 || from >= to || from >= s.len() {
        Seq::empty()
    } else {
        let end = text::line_end(s, from);
        proof {
            text::lemma_line_end(s, from);
        }
        let rest = headings_between(s, spans, end, to);
        match markdown::line_heading(s, spans, from) {
            Some(heading) => seq![heading] + rest,
            None => rest,
        }
    }
}

/// The headings of a body from an index on.
pub proof fn lemma_all_headings(s: Seq<char>, spans: Seq<Span>, at: int, read: Seq<HeadingView>)
    requires
        0 <= at <= s.len(),
    ensures
        markdown::line_headings(s, spans, at, read) == read + headings_between(
            s,
            spans,
            at,
            s.len() as int,
        ),
    decreases s.len() - at,
{
    if at < s.len() {
        let end = text::line_end(s, at);
        text::lemma_line_end(s, at);
        match markdown::line_heading(s, spans, at) {
            Some(heading) => {
                lemma_all_headings(s, spans, end, read.push(heading));
                assert(read.push(heading) + headings_between(s, spans, end, s.len() as int)
                    =~= read + (seq![heading] + headings_between(s, spans, end, s.len() as int)));
            },
            None => {
                lemma_all_headings(s, spans, end, read);
            },
        }
    } else {
        assert(read + Seq::<HeadingView>::empty() =~= read);
    }
}

/// Whether an index begins a line, or ends the text.
pub open spec fn is_line_break(s: Seq<char>, at: int) -> bool {
    0 <= at <= s.len() && (at == 0 || at == s.len() || s[at - 1] == '\n')
}

/// A line does not reach over the start of another one.
pub proof fn lemma_line_within(s: Seq<char>, from: int, to: int)
    requires
        0 <= from < to,
        is_line_break(s, to),
    ensures
        text::line_end(s, from) <= to,
        from < text::line_end(s, from),
        is_line_break(s, text::line_end(s, from)),
{
    text::lemma_line_end(s, from);
    if text::line_end(s, from) > to {
        assert(s[to - 1] != '\n');
    }
}

pub proof fn lemma_split(s: Seq<char>, spans: Seq<Span>, from: int, mid: int, to: int)
    requires
        0 <= from <= mid <= to,
        is_line_break(s, mid),
    ensures
        headings_between(s, spans, from, to) == headings_between(s, spans, from, mid)
            + headings_between(s, spans, mid, to),
    decreases mid - from,
{
    if from < mid {
        let end = text::line_end(s, from);
        lemma_line_within(s, from, mid);
        lemma_split(s, spans, end, mid, to);
        let rest = headings_between(s, spans, mid, to);
        let first = headings_between(s, spans, end, mid);
        if let Some(heading) = markdown::line_heading(s, spans, from) {
            assert(seq![heading] + (first + rest) =~= (seq![heading] + first) + rest);
        }
    } else {
        assert(Seq::<HeadingView>::empty() + headings_between(s, spans, mid, to)
            =~= headings_between(s, spans, mid, to));
    }
}

/// The headings between two indices stand there, in order.
pub proof fn lemma_between(s: Seq<char>, spans: Seq<Span>, from: int, to: int)
    requires
        0 <= from <= s.len() <= usize::MAX,
        is_line_break(s, from),
    ensures
        forall|i: int|
            0 <= i < headings_between(s, spans, from, to).len() ==> is_heading_of(
                s,
                spans,
                from,
                to,
                #[trigger] headings_between(s, spans, from, to)[i],
            ),
        forall|i: int, j: int|
            0 <= i < j < headings_between(s, spans, from, to).len() ==> (
            #[trigger] headings_between(s, spans, from, to)[i]).start < (
            #[trigger] headings_between(s, spans, from, to)[j]).start,
    decreases s.len() - from,
{
    if from < to && from < s.len() {
        let end = text::line_end(s, from);
        text::lemma_line_end(s, from);
        lemma_between(s, spans, end, to);
        let all = headings_between(s, spans, from, to);
        let rest = headings_between(s, spans, end, to);
        if let Some(heading) = markdown::line_heading(s, spans, from) {
            assert(all == seq![heading] + rest);
            assert(is_heading_of(s, spans, from, to, heading));
            assert forall|i: int| 0 <= i < all.len() implies is_heading_of(
                s,
                spans,
                from,
                to,
                #[trigger] all[i],
            ) by {
                if i > 0 {
                    assert(all[i] == rest[i - 1]);
                }
            }
            assert forall|i: int, j: int| 0 <= i < j < all.len() implies (#[trigger] all[i]).start
                < (#[trigger] all[j]).start by {
                assert(all[j] == rest[j - 1]);
                assert(is_heading_of(s, spans, end, to, rest[j - 1]));
                if i > 0 {
                    assert(all[i] == rest[i - 1]);
                }
            }
        } else {
            assert forall|i: int| 0 <= i < all.len() implies is_heading_of(
                s,
                spans,
                from,
                to,
                #[trigger] all[i],
            ) by {
                assert(is_heading_of(s, spans, end, to, rest[i]));
            }
        }
    }
}

/// Whether a heading is that of a line between two indices.
pub open spec fn is_heading_of(
    s: Seq<char>,
    spans: Seq<Span>,
    from: int,
    to: int,
    heading: HeadingView,
) -> bool {
    &&& from <= heading.start < to
    &&& heading.start < s.len()
    &&& is_line_break(s, heading.start as int)
    &&& markdown::line_heading(s, spans, heading.start as int) == Some(heading)
}

/// Lines of nothing but line endings hold no heading.
pub proof fn lemma_no_headings(s: Seq<char>, spans: Seq<Span>, from: int, to: int)
    requires
        0 <= from <= to <= s.len(),
        is_line_break(s, to),
        all_in(s.subrange(from, to), CharClass::LineEnd),
    ensures
        headings_between(s, spans, from, to) == Seq::<HeadingView>::empty(),
    decreases to - from,
{
    if from < to {
        let end = text::line_end(s, from);
        lemma_line_within(s, from, to);
        let line = s.subrange(from, end);
        assert forall|i: int| 0 <= i < line.len() implies text::in_class(
            CharClass::LineEnd,
            #[trigger] line[i],
        ) by {
            assert(line[i] == s.subrange(from, to)[i]);
        }
        text::lemma_trail(line, CharClass::LineEnd, line.len() as int);
        assert(line_core(s, from) =~= Seq::<char>::empty());
        assert(text::trim_start(Seq::<char>::empty(), CharClass::Space) =~= Seq::<char>::empty());
        lemma_core_heading(s, from);
        assert forall|i: int| 0 <= i < s.subrange(end, to).len() implies text::in_class(
            CharClass::LineEnd,
            #[trigger] s.subrange(end, to)[i],
        ) by {
            assert(s.subrange(end, to)[i] == s.subrange(from, to)[i + (end - from)]);
        }
        lemma_no_headings(s, spans, end, to);
    }
}

/// Whether the Markdown parser reports a heading in the line that begins at an index.
pub open spec fn reports(s: Seq<char>, at: int) -> bool {
    markdown::begins_in_line(s, markdown::marks(s).headings, at)
}

/// Whether the Markdown parser reports headings in the same lines of two texts before an index.
pub open spec fn reports_before(s: Seq<char>, changed: Seq<char>, to: int) -> bool {
    forall|at: int|
        0 <= at < to && is_line_break(s, at) ==> #[trigger] reports(s, at) == reports(changed, at)
}

/// Whether the Markdown parser reports headings in the same lines of two texts from an index on, the
/// lines of the second text counted from its end.
pub open spec fn reports_behind(s: Seq<char>, changed: Seq<char>, from: int) -> bool {
    forall|at: int|
        from <= at < s.len() && is_line_break(s, at) ==> #[trigger] reports(s, at) == reports(
            changed,
            at + (changed.len() - s.len()),
        )
}

proof fn lemma_same_prefix(s: Seq<char>, changed: Seq<char>, from: int, to: int)
    requires
        0 <= from <= to <= s.len() <= usize::MAX,
        to <= changed.len(),
        changed.take(to) == s.take(to),
        to == 0 || s[to - 1] == '\n',
        is_line_break(s, from),
        reports_before(s, changed, to),
    ensures
        headings_between(s, markdown::marks(s).headings, from, to) == headings_between(
            changed,
            markdown::marks(changed).headings,
            from,
            to,
        ),
    decreases to - from,
{
    if from < to {
        assert forall|i: int| 0 <= i < to implies #[trigger] changed[i] == s[i] by {
            assert(changed.take(to)[i] == changed[i]);
            assert(s.take(to)[i] == s[i]);
        }
        let end = text::line_end(s, from);
        lemma_line_within(s, from, to);
        lemma_line_within(changed, from, to);
        text::lemma_line_end(s, from);
        text::lemma_line_end(changed, from);
        let other = text::line_end(changed, from);
        if end < other {
            assert(s[end - 1] == '\n');
            assert(changed[end - 1] != '\n');
        }
        if other < end {
            assert(changed[other - 1] == '\n');
            assert(s[other - 1] != '\n');
        }
        assert(changed.subrange(from, end) =~= s.subrange(from, end));
        assert(reports(s, from) == reports(changed, from));
        lemma_same_prefix(s, changed, end, to);
    }
}

/// A heading at another place.
pub open spec fn moved(heading: HeadingView, by: int) -> HeadingView {
    HeadingView {
        start: (heading.start + by) as usize,
        content_start: (heading.content_start + by) as usize,
        ..heading
    }
}

/// Headings at other places.
pub open spec fn all_moved(headings: Seq<HeadingView>, by: int) -> Seq<HeadingView> {
    Seq::new(headings.len(), |i: int| moved(headings[i], by))
}

/// A line of what two texts have in common at their ends is the same in both.
pub proof fn lemma_line_moved(s: Seq<char>, changed: Seq<char>, from: int, at: int)
    requires
        0 <= from <= at < s.len(),
        from + (changed.len() - s.len()) >= 0,
        changed.skip(from + (changed.len() - s.len())) == s.skip(from),
    ensures
        ({
            let by = changed.len() - s.len();
            &&& text::line_end(changed, at + by) == text::line_end(s, at) + by
            &&& changed.subrange(at + by, text::line_end(s, at) + by) == s.subrange(
                at,
                text::line_end(s, at),
            )
        }),
{
    let by = changed.len() - s.len();
    assert forall|i: int| from <= i < s.len() implies #[trigger] s[i] == changed[i + by] by {
        assert(s.skip(from)[i - from] == changed.skip(from + by)[i - from]);
    }
    let feed = text::next_index(s, '\n', at);
    text::lemma_next_index_is(s, '\n', at);
    assert forall|i: int| at + by <= i < feed + by implies #[trigger] changed[i] != '\n' by {
        assert(s[i - by] == changed[i]);
    }
    if feed < s.len() {
        assert(s[feed] == changed[feed + by]);
    }
    text::lemma_next_index(changed, '\n', at + by, feed + by);
    text::lemma_line_end(s, at);
    assert(changed.subrange(at + by, text::line_end(s, at) + by) =~= s.subrange(
        at,
        text::line_end(s, at),
    ));
}

proof fn lemma_same_suffix(s: Seq<char>, changed: Seq<char>, start: int, from: int)
    requires
        0 <= start <= from <= s.len() <= usize::MAX,
        changed.len() <= usize::MAX,
        start + (changed.len() - s.len()) >= 0,
        changed.skip(start + (changed.len() - s.len())) == s.skip(start),
        is_line_break(s, from),
        reports_behind(s, changed, start),
    ensures
        headings_between(
            changed,
            markdown::marks(changed).headings,
            from + (changed.len() - s.len()),
            changed.len() as int,
        ) == all_moved(
            headings_between(s, markdown::marks(s).headings, from, s.len() as int),
            changed.len() - s.len(),
        ),
    decreases s.len() - from,
{
    let by = changed.len() - s.len();
    let spans = markdown::marks(s).headings;
    let others = markdown::marks(changed).headings;
    if from < s.len() {
        let end = text::line_end(s, from);
        text::lemma_line_end(s, from);
        lemma_line_moved(s, changed, start, from);
        assert(reports(s, from) == reports(changed, from + by));
        lemma_same_suffix(s, changed, start, end);
        let rest = headings_between(s, spans, end, s.len() as int);
        match markdown::line_heading(s, spans, from) {
            Some(heading) => {
                assert(markdown::line_heading(changed, others, from + by) == Some(
                    moved(heading, by),
                ));
                assert(all_moved(seq![heading] + rest, by) =~= seq![moved(heading, by)] + all_moved(
                    rest,
                    by,
                ));
            },
            None => {
                assert(markdown::line_heading(changed, others, from + by) is None);
            },
        }
    } else {
        assert(all_moved(Seq::empty(), by) =~= Seq::<HeadingView>::empty());
    }
}

/// Where the line at `p` ends, or `p` itself where the edit begins there.
pub open spec fn edge(s: Seq<char>, p: int, a: int) -> int {
    if p < a {
        text::line_end(s, p)
    } else {
        p
    }
}

/// Whether two texts differ only between `a` and `b`. The line at `p` is the last one before `a`, and
/// only characters that end it stand behind `a`.
pub open spec fn is_edit(s: Seq<char>, changed: Seq<char>, p: int, a: int, b: int) -> bool {
    let by = changed.len() - s.len();
    &&& 0 <= p <= a <= b <= s.len() <= usize::MAX
    &&& changed.len() <= usize::MAX
    &&& a <= b + by
    &&& changed.take(a) == s.take(a)
    &&& changed.skip(b + by) == s.skip(b)
    &&& p == 0 || s[p - 1] == '\n'
    &&& is_line_break(s, b) && is_line_break(changed, b + by)
    &&& p < a ==> {
        &&& a <= text::line_end(s, p) <= b
        &&& a <= text::line_end(changed, p) <= b + by
        &&& all_in(s.subrange(a, text::line_end(s, p)), CharClass::LineEnd)
        &&& all_in(changed.subrange(a, text::line_end(changed, p)), CharClass::LineEnd)
    }
}

/// The headings of a body before an edit.
pub open spec fn first_part(s: Seq<char>, p: int, a: int) -> Seq<HeadingView> {
    headings_between(s, markdown::marks(s).headings, 0, edge(s, p, a))
}

/// The headings of a body within an edit.
pub open spec fn mid_part(s: Seq<char>, p: int, a: int, b: int) -> Seq<HeadingView> {
    headings_between(s, markdown::marks(s).headings, edge(s, p, a), b)
}

/// The headings of a body behind an edit.
pub open spec fn last_part(s: Seq<char>, b: int) -> Seq<HeadingView> {
    headings_between(s, markdown::marks(s).headings, b, s.len() as int)
}

/// Whether two headings have one title, level and place.
pub open spec fn is_kept(a: HeadingView, b: HeadingView) -> bool {
    a.title == b.title && a.level == b.level && a.start == b.start
}

proof fn lemma_parts(s: Seq<char>, p: int, a: int, b: int)
    requires
        0 <= edge(s, p, a) <= b <= s.len() <= usize::MAX,
        0 <= p,
        is_line_break(s, edge(s, p, a)),
        is_line_break(s, b),
    ensures
        properties::headings_in(s) == first_part(s, p, a) + mid_part(s, p, a, b) + last_part(s, b),
{
    let spans = markdown::marks(s).headings;
    let len = s.len() as int;
    let e = edge(s, p, a);
    lemma_all_headings(s, spans, 0, Seq::empty());
    assert(Seq::<HeadingView>::empty() + headings_between(s, spans, 0, len)
        =~= headings_between(s, spans, 0, len));
    lemma_split(s, spans, 0, b, len);
    lemma_split(s, spans, 0, e, b);
}

/// The line before an edit has the same heading.
pub proof fn lemma_edge_line(s: Seq<char>, changed: Seq<char>, p: int, a: int, b: int)
    requires
        is_edit(s, changed, p, a, b),
        p < a,
    ensures
        line_core(s, p) == line_core(changed, p),
{
    let e = text::line_end(s, p);
    let f = text::line_end(changed, p);
    let common = s.subrange(p, a);
    assert(common =~= changed.subrange(p, a)) by {
        assert forall|i: int| p <= i < a implies s[i] == changed[i] by {
            assert(s.take(a)[i] == s[i]);
            assert(changed.take(a)[i] == changed[i]);
        }
    }
    assert(s.subrange(p, e) =~= common + s.subrange(a, e));
    assert(changed.subrange(p, f) =~= common + changed.subrange(a, f));
    lemma_trim_behind(common, s.subrange(a, e), CharClass::LineEnd);
    lemma_trim_behind(common, changed.subrange(a, f), CharClass::LineEnd);
}

/// What an edit leaves of the headings of a body: those before it, and those behind it at their new
/// places.
pub proof fn lemma_edit(s: Seq<char>, changed: Seq<char>, p: int, a: int, b: int)
    requires
        is_edit(s, changed, p, a, b),
        reports_before(s, changed, a),
        reports_behind(s, changed, b),
    ensures
        ({
            let by = changed.len() - s.len();
            let first = first_part(s, p, a);
            let again = first_part(changed, p, a);
            &&& properties::headings_in(s) == first + mid_part(s, p, a, b) + last_part(s, b)
            &&& properties::headings_in(changed) == again + mid_part(changed, p, a, b + by)
                + all_moved(last_part(s, b), by)
            &&& again.len() == first.len()
            &&& forall|j: int|
                0 <= j < first.len() ==> {
                    &&& is_kept(#[trigger] first[j], again[j])
                    &&& first[j].start <= p
                    &&& first[j].start < p ==> again[j] == first[j] && first[j].content_start <= p
                    &&& first[j].start == p ==> p < a && first[j].content_start == text::line_end(
                        s,
                        p,
                    ) && again[j].content_start == text::line_end(changed, p)
                }
        }),
{
    let by = changed.len() - s.len();
    let spans = markdown::marks(s).headings;
    let others = markdown::marks(changed).headings;
    let e = edge(s, p, a);
    let f = edge(changed, p, a);
    if p < a {
        text::lemma_line_end(s, p);
        text::lemma_line_end(changed, p);
    }
    assert(p > 0 ==> changed[p - 1] == '\n') by {
        if p > 0 {
            assert(s.take(a)[p - 1] == s[p - 1]);
            assert(changed.take(a)[p - 1] == changed[p - 1]);
        }
    }
    lemma_parts(s, p, a, b);
    lemma_parts(changed, p, a, b + by);
    lemma_same_suffix(s, changed, b, b);
    assert(changed.take(p) =~= changed.take(a).take(p));
    assert(s.take(p) =~= s.take(a).take(p));
    lemma_same_prefix(s, changed, 0, p);
    lemma_split(s, spans, 0, p, e);
    lemma_split(changed, others, 0, p, f);
    let head = headings_between(s, spans, 0, p);
    let first = first_part(s, p, a);
    let again = first_part(changed, p, a);
    lemma_between(s, spans, 0, p);
    assert forall|j: int| 0 <= j < head.len() implies (#[trigger] head[j]).start < p
        && head[j].content_start <= p by {
        assert(is_heading_of(s, spans, 0, p, head[j]));
        lemma_line_within(s, head[j].start as int, p);
    }
    if p < a {
        lemma_edge_line(s, changed, p, a, b);
        lemma_core_heading(s, p);
        lemma_core_heading(changed, p);
        assert(reports(s, p) == reports(changed, p));
        assert(headings_between(s, spans, e, e) =~= Seq::<HeadingView>::empty());
        assert(headings_between(changed, others, f, f) =~= Seq::<HeadingView>::empty());
        match markdown::line_heading(s, spans, p) {
            Some(heading) => {
                let other = markdown::line_heading(changed, others, p)->0;
                assert(headings_between(s, spans, p, e) =~= seq![heading]);
                assert(headings_between(changed, others, p, f) =~= seq![other]);
            },
            None => {
                assert(headings_between(s, spans, p, e) =~= Seq::<HeadingView>::empty());
                assert(headings_between(changed, others, p, f) =~= Seq::<HeadingView>::empty());
            },
        }
    }
    assert forall|j: int| 0 <= j < first.len() implies {
        &&& is_kept(#[trigger] first[j], again[j])
        &&& first[j].start <= p
        &&& first[j].start < p ==> again[j] == first[j] && first[j].content_start <= p
        &&& first[j].start == p ==> p < a && first[j].content_start == text::line_end(s, p)
            && again[j].content_start == text::line_end(changed, p)
    } by {
        if j < head.len() {
            assert(first[j] == head[j]);
            assert(again[j] == head[j]);
        }
    }
}

/// Whether the next heading from an index on that is at most as deep as a level is at another index,
/// the number of the headings where there is none.
pub open spec fn is_peer(headings: Seq<HeadingView>, from: int, level: u8, at: int) -> bool {
    &&& from <= at <= headings.len()
    &&& forall|k: int| from <= k < at ==> (#[trigger] headings[k]).level > level
    &&& at < headings.len() ==> headings[at].level <= level
}

pub proof fn lemma_peer(headings: Seq<HeadingView>, from: int, level: u8, len: usize, at: int)
    requires
        0 <= from,
        is_peer(headings, from, level, at),
    ensures
        outline::next_peer(headings, from, level, len) == if at < headings.len() {
            headings[at].start
        } else {
            len
        },
    decreases at - from,
{
    if from < at {
        lemma_peer(headings, from + 1, level, len, at);
    }
}

pub proof fn find_peer(headings: Seq<HeadingView>, from: int, level: u8) -> (at: int)
    requires
        0 <= from <= headings.len(),
    ensures
        is_peer(headings, from, level, at),
    decreases headings.len() - from,
{
    if from < headings.len() && headings[from].level > level {
        find_peer(headings, from + 1, level)
    } else {
        from
    }
}

/// Whether two sections of two bodies have one title, level and content.
pub open spec fn same_section(
    s: Seq<char>,
    section: RegionView,
    changed: Seq<char>,
    other: RegionView,
) -> bool {
    &&& section.title == other.title
    &&& section.level == other.level
    &&& markdown::content_of(s, section) == markdown::content_of(changed, other)
}

/// A section that ends before an edit is kept.
pub proof fn lemma_before(s: Seq<char>, changed: Seq<char>, p: int, a: int, b: int, j: int, m: int)
    requires
        is_edit(s, changed, p, a, b),
        reports_before(s, changed, a),
        reports_behind(s, changed, b),
        0 <= j < m < first_part(s, p, a).len(),
        is_peer(properties::headings_in(s), j + 1, properties::headings_in(s)[j].level, m),
    ensures
        same_section(
            s,
            markdown::sections_in(s)[j],
            changed,
            markdown::sections_in(changed)[j],
        ),
        markdown::sections_in(changed).len() > j,
{
    let h = properties::headings_in(s);
    let g = properties::headings_in(changed);
    let first = first_part(s, p, a);
    let again = first_part(changed, p, a);
    let level = h[j].level;
    lemma_edit(s, changed, p, a, b);
    properties::lemma_headings_in(s);
    assert(h[j] == first[j] && h[m] == first[m]);
    assert(g[j] == again[j] && g[m] == again[m]);
    assert(is_kept(first[m], again[m]));
    assert(h[j].start < h[m].start);
    assert forall|k: int| j + 1 <= k < m implies (#[trigger] g[k]).level > level by {
        assert(h[k] == first[k] && g[k] == again[k]);
        assert(is_kept(first[k], again[k]));
    }
    lemma_peer(h, j + 1, level, s.len() as usize, m);
    lemma_peer(g, j + 1, level, changed.len() as usize, m);
    let section = markdown::sections_in(s)[j];
    let other = markdown::sections_in(changed)[j];
    assert(section.content_start <= section.end <= p);
    assert(s.subrange(section.content_start as int, section.end as int) =~= changed.subrange(
        other.content_start as int,
        other.end as int,
    )) by {
        assert forall|i: int| 0 <= i < a implies s[i] == changed[i] by {
            assert(s.take(a)[i] == s[i]);
            assert(changed.take(a)[i] == changed[i]);
        }
    }
}

/// A section behind an edit is kept.
pub proof fn lemma_behind(s: Seq<char>, changed: Seq<char>, p: int, a: int, b: int, j: int)
    requires
        is_edit(s, changed, p, a, b),
        reports_before(s, changed, a),
        reports_behind(s, changed, b),
        0 <= j < last_part(s, b).len(),
    ensures
        ({
            let x = first_part(s, p, a).len() + mid_part(s, p, a, b).len() + j;
            let y = markdown::sections_in(changed).len() - (markdown::sections_in(s).len() - x);
            &&& 0 <= y < markdown::sections_in(changed).len()
            &&& x < markdown::sections_in(s).len()
            &&& same_section(
                s,
                markdown::sections_in(s)[x as int],
                changed,
                markdown::sections_in(changed)[y],
            )
        }),
{
    let by = changed.len() - s.len();
    let h = properties::headings_in(s);
    let g = properties::headings_in(changed);
    let last = last_part(s, b);
    let front = first_part(s, p, a) + mid_part(s, p, a, b);
    let other_front = first_part(changed, p, a) + mid_part(changed, p, a, b + by);
    let x = front.len() + j;
    let y = other_front.len() + j;
    lemma_edit(s, changed, p, a, b);
    properties::lemma_headings_in(s);
    lemma_between(s, markdown::marks(s).headings, b, s.len() as int);
    assert forall|k: int| 0 <= k < last.len() implies b <= (#[trigger] last[k]).start < s.len() by {
        assert(is_heading_of(s, markdown::marks(s).headings, b, s.len() as int, last[k]));
    }
    lemma_tail(front, other_front, last, by, s.len() as usize, changed.len() as usize, j);
    assert(h[x as int] == last[j]);
    assert(g[y as int] == moved(last[j], by));
    let section = markdown::sections_in(s)[x as int];
    let other = markdown::sections_in(changed)[y as int];
    assert(is_heading_of(s, markdown::marks(s).headings, b, s.len() as int, last[j]));
    markdown::lemma_peer_behind(h, x as int, x + 1, s.len() as usize);
    lemma_moved_content(s, changed, b, section, other);
}

/// The content of a section behind an edit is kept.
proof fn lemma_moved_content(
    s: Seq<char>,
    changed: Seq<char>,
    b: int,
    section: RegionView,
    other: RegionView,
)
    requires
        0 <= b <= section.content_start <= section.end <= s.len(),
        b + (changed.len() - s.len()) >= 0,
        changed.skip(b + (changed.len() - s.len())) == s.skip(b),
        other.content_start == section.content_start + (changed.len() - s.len()),
        other.end == section.end + (changed.len() - s.len()),
    ensures
        markdown::content_of(s, section) == markdown::content_of(changed, other),
{
    let by = changed.len() - s.len();
    assert forall|i: int| b <= i < s.len() implies s[i] == changed[i + by] by {
        assert(s.skip(b)[i - b] == s[i]);
        assert(changed.skip(b + by)[i - b] == changed[i + by]);
    }
    assert(s.subrange(section.content_start as int, section.end as int) =~= changed.subrange(
        other.content_start as int,
        other.end as int,
    ));
}

/// Where headings end that stand at other places behind others.
proof fn lemma_tail(
    front: Seq<HeadingView>,
    other_front: Seq<HeadingView>,
    last: Seq<HeadingView>,
    by: int,
    len: usize,
    other_len: usize,
    j: int,
)
    requires
        0 <= j < last.len(),
        other_len == len + by,
        forall|k: int| 0 <= k < last.len() ==> 0 <= (#[trigger] last[k]).start + by <= other_len,
    ensures
        outline::next_peer(
            other_front + all_moved(last, by),
            other_front.len() + j + 1,
            last[j].level,
            other_len,
        ) == outline::next_peer(front + last, front.len() + j + 1, last[j].level, len) + by,
{
    let h = front + last;
    let g = other_front + all_moved(last, by);
    let level = last[j].level;
    let x = front.len() + j;
    let y = other_front.len() + j;
    let m = find_peer(h, x + 1, level);
    let n = m + (y - x);
    assert forall|k: int| y + 1 <= k < n implies (#[trigger] g[k]).level > level by {
        let i = k - other_front.len();
        assert(g[k] == moved(last[i], by));
        assert(h[k - (y - x)] == last[i]);
    }
    if m < h.len() {
        let i = m - front.len();
        assert(h[m] == last[i]);
        assert(g[n] == moved(last[i], by));
    }
    lemma_peer(h, x + 1, level, len, m);
    lemma_peer(g, y + 1, level, other_len, n);
}

/// Where one section has a title and no other one, it is found.
pub proof fn lemma_only_titled(regions: Seq<RegionView>, title: Seq<char>, i: int)
    requires
        0 <= i < regions.len(),
        outline::titled(regions[i], title),
        forall|k: int|
            0 <= k < regions.len() && k != i ==> !outline::titled(#[trigger] regions[k], title),
    ensures
        outline::only_titled(regions, title) == Ok::<Option<int>, nat>(Some(i)),
{
    lemma_count_titled(regions, title, regions.len());
    lemma_count_one(regions, title, regions.len(), i);
    outline::lemma_first_titled(regions, title, 0, i);
}

/// Where no section has a title, none is found.
pub proof fn lemma_none_titled(regions: Seq<RegionView>, title: Seq<char>)
    requires
        forall|k: int| 0 <= k < regions.len() ==> !outline::titled(#[trigger] regions[k], title),
    ensures
        outline::only_titled(regions, title) == Ok::<Option<int>, nat>(None),
{
    lemma_count_none(regions, title, regions.len());
    outline::lemma_first_titled(regions, title, 0, regions.len() as int);
}

proof fn lemma_count_none(regions: Seq<RegionView>, title: Seq<char>, n: nat)
    requires
        n <= regions.len(),
        forall|k: int| 0 <= k < n ==> !outline::titled(#[trigger] regions[k], title),
    ensures
        outline::count_titled(regions, title, n) == 0,
    decreases n,
{
    if n > 0 {
        lemma_count_none(regions, title, (n - 1) as nat);
    }
}

proof fn lemma_count_one(regions: Seq<RegionView>, title: Seq<char>, n: nat, i: int)
    requires
        0 <= i < n <= regions.len(),
        outline::titled(regions[i], title),
        forall|k: int| 0 <= k < n && k != i ==> !outline::titled(#[trigger] regions[k], title),
    ensures
        outline::count_titled(regions, title, n) == 1,
    decreases n,
{
    if n - 1 > i {
        lemma_count_one(regions, title, (n - 1) as nat, i);
    } else {
        lemma_count_none(regions, title, (n - 1) as nat);
    }
}

proof fn lemma_count_titled(regions: Seq<RegionView>, title: Seq<char>, n: nat)
    requires
        n <= regions.len(),
    ensures
        forall|i: int|
            0 <= i < n && outline::titled(#[trigger] regions[i], title) ==> outline::count_titled(
                regions,
                title,
                n,
            ) >= 1,
        forall|i: int, j: int|
            0 <= i < j < n && outline::titled(#[trigger] regions[i], title) && outline::titled(
                #[trigger] regions[j],
                title,
            ) ==> outline::count_titled(regions, title, n) >= 2,
    decreases n,
{
    if n > 0 {
        lemma_count_titled(regions, title, (n - 1) as nat);
    }
}

/// What the search for a title says of the sections.
pub proof fn lemma_titled(regions: Seq<RegionView>, title: Seq<char>)
    ensures
        match outline::only_titled(regions, title) {
            Ok(Some(i)) => 0 <= i < regions.len() && outline::titled(regions[i], title) && forall|
                k: int,
            |
                0 <= k < regions.len() && k != i ==> !outline::titled(#[trigger] regions[k], title),
            Ok(None) => forall|k: int|
                0 <= k < regions.len() ==> !outline::titled(#[trigger] regions[k], title),
            Err(_) => true,
        },
{
    lemma_count_titled(regions, title, regions.len());
    lemma_first_is(regions, title, 0);
}

proof fn lemma_first_is(regions: Seq<RegionView>, title: Seq<char>, from: int)
    requires
        0 <= from,
    ensures
        match outline::first_titled(regions, title, from) {
            Some(i) => from <= i < regions.len() && outline::titled(regions[i], title),
            None => forall|k: int|
                from <= k < regions.len() ==> !outline::titled(#[trigger] regions[k], title),
        },
    decreases regions.len() - from,
{
    if from < regions.len() && !outline::titled(regions[from], title) {
        lemma_first_is(regions, title, from + 1);
    }
}

/// Whether the Markdown parser reads a changed body as before outside a range: it reports headings in
/// the same lines before the range and behind it.
pub open spec fn read_around(s: Seq<char>, changed: Seq<char>, start: int, end: int) -> bool {
    reports_before(s, changed, start) && reports_behind(s, changed, end)
}

/// Whether all headings between two indices are deeper than a level.
pub open spec fn deeper_between(s: Seq<char>, from: int, to: int, level: u8) -> bool {
    forall|at: int|
        from <= at < to && is_line_break(s, at) ==> (#[trigger] markdown::line_heading(
            s,
            markdown::marks(s).headings,
            at,
        ) matches Some(heading) ==> heading.level > level)
}

/// Whether no heading between two indices has a title.
pub open spec fn untitled_between(s: Seq<char>, from: int, to: int, title: Seq<char>) -> bool {
    forall|at: int|
        from <= at < to && is_line_break(s, at) ==> (#[trigger] markdown::line_heading(
            s,
            markdown::marks(s).headings,
            at,
        ) matches Some(heading) ==> !text::alike(heading.title, title))
}

/// A section is the last one before the end of its heading line, and those that begin in its content
/// are those within it.
pub proof fn lemma_section_parts(s: Seq<char>, i: int)
    requires
        s.len() <= usize::MAX,
        0 <= i < markdown::sections_in(s).len(),
    ensures
        ({
            let section = markdown::sections_in(s)[i];
            let p = section.start as int;
            let a = section.content_start as int;
            let b = section.end as int;
            let h = properties::headings_in(s);
            let first = first_part(s, p, a);
            let mid = mid_part(s, p, a, b);
            &&& text::line_end(s, p) == a
            &&& 0 <= p < a <= b <= s.len()
            &&& p == 0 || s[p - 1] == '\n'
            &&& is_line_break(s, a)
            &&& is_line_break(s, b)
            &&& h == first + mid + last_part(s, b)
            &&& first.len() == i + 1
            &&& is_peer(h, i + 1, section.level, i + 1 + mid.len() as int)
        }),
{
    let section = markdown::sections_in(s)[i];
    let p = section.start as int;
    let a = section.content_start as int;
    let b = section.end as int;
    let h = properties::headings_in(s);
    let spans = markdown::marks(s).headings;
    properties::sections_are_lines(s, i);
    properties::lemma_headings_in(s);
    text::lemma_line_end(s, p);
    text::lemma_line_start(s, p);
    assert(is_line_break(s, a));
    lemma_breaks(s, i);
    lemma_parts(s, p, a, b);
    let first = first_part(s, p, a);
    let mid = mid_part(s, p, a, b);
    let last = last_part(s, b);
    lemma_between(s, spans, 0, a);
    lemma_between(s, spans, a, b);
    lemma_between(s, spans, b, s.len() as int);
    assert forall|k: int| 0 <= k < h.len() implies ((#[trigger] h[k]).start < a) == (k
        < first.len()) && (h[k].start < b) == (k < first.len() + mid.len()) by {
        if k < first.len() {
            assert(h[k] == first[k]);
            assert(is_heading_of(s, spans, 0, a, first[k]));
        } else if k < first.len() + mid.len() {
            assert(h[k] == mid[k - first.len()]);
            assert(is_heading_of(s, spans, a, b, mid[k - first.len()]));
        } else {
            assert(h[k] == last[k - first.len() - mid.len()]);
            assert(is_heading_of(
                s,
                spans,
                b,
                s.len() as int,
                last[k - first.len() - mid.len()],
            ));
        }
    }
    assert(h[i].start == p);
    if first.len() > i + 1 {
        assert(h[i].content_start <= h[i + 1].start);
    }
    let m = find_peer(h, i + 1, section.level);
    let k = (first.len() + mid.len()) as int;
    lemma_peer(h, i + 1, section.level, s.len() as usize, m);
    if m < h.len() {
        assert(h[m].start == b);
        if m > k {
            assert(h[k].start < h[m].start);
        }
    } else {
        if k < h.len() {
            assert(h[k].start >= b);
            assert(properties::is_heading(s, spans, h[k]));
        }
    }
    assert(m == k);
}

proof fn lemma_breaks(s: Seq<char>, i: int)
    requires
        s.len() <= usize::MAX,
        0 <= i < markdown::sections_in(s).len(),
    ensures
        is_line_break(s, markdown::sections_in(s)[i].start as int),
        is_line_break(s, markdown::sections_in(s)[i].end as int),
{
    properties::sections_are_lines(s, i);
    let section = markdown::sections_in(s)[i];
    text::lemma_line_start(s, section.start as int);
    if section.end != s.len() {
        let k = choose|k: int|
            i < k < markdown::sections_in(s).len() && (#[trigger] markdown::sections_in(
                s,
            )[k]).start == section.end;
        properties::sections_are_lines(s, k);
        text::lemma_line_start(s, section.end as int);
    }
}

/// Where the line before an edit ends in the changed text.
pub proof fn lemma_edge_end(s: Seq<char>, changed: Seq<char>, p: int, a: int)
    requires
        0 <= p < a <= s.len(),
        a <= changed.len(),
        changed.take(a) == s.take(a),
        text::line_end(s, p) == a,
        s[a - 1] != '\n' && changed.len() > a ==> changed[a] == '\n',
    ensures
        text::line_end(changed, p) == if s[a - 1] == '\n' || changed.len() == a {
            a
        } else {
            a + 1
        },
{
    text::lemma_line_end(s, p);
    assert forall|i: int| 0 <= i < a implies s[i] == changed[i] by {
        assert(s.take(a)[i] == s[i]);
        assert(changed.take(a)[i] == changed[i]);
    }
    if s[a - 1] == '\n' {
        text::lemma_next_index(changed, '\n', p, a - 1);
    } else {
        text::lemma_next_index(changed, '\n', p, a);
    }
}

/// Replacing the content of a section is an edit behind its heading line.
proof fn lemma_replacing(s: Seq<char>, i: int, content: Seq<char>)
    requires
        s.len() <= usize::MAX,
        0 <= i < markdown::sections_in(s).len(),
        markdown::replaced(s, markdown::sections_in(s)[i], content).len() <= usize::MAX,
        markdown::sections_in(s)[i].end < s.len() ==> s[markdown::sections_in(s)[i].end as int]
            != '\r',
    ensures
        ({
            let section = markdown::sections_in(s)[i];
            let changed = markdown::replaced(s, section, content);
            let p = section.start as int;
            let a = section.content_start as int;
            let b = section.end as int;
            let by = changed.len() - s.len();
            let from = text::line_end(changed, p);
            &&& is_edit(s, changed, p, a, b)
            &&& from == if s[a - 1] == '\n' || changed.len() == a {
                a
            } else {
                a + 1
            }
            &&& text::trim_both(changed.subrange(from, b + by), CharClass::LineEnd)
                == if text::is_blank(content) {
                Seq::empty()
            } else {
                text::trim_both(content, CharClass::LineEnd)
            }
        }),
{
    let section = markdown::sections_in(s)[i];
    let changed = markdown::replaced(s, section, content);
    let p = section.start as int;
    let a = section.content_start as int;
    let b = section.end as int;
    let by = changed.len() - s.len();
    lemma_section_parts(s, i);
    text::lemma_line_end(s, p);
    properties::replacing_keeps_every_other_byte(s, i, content);
    reveal_strlit("\n");
    let feed = "\n"@;
    assert(feed =~= seq!['\n']);
    let padding = markdown::padded(content);
    let tail = if b < s.len() {
        feed + s.skip(b)
    } else {
        Seq::empty()
    };
    let mid = if b < s.len() {
        padding + feed
    } else {
        padding
    };
    assert(changed == s.take(a) + padding + tail);
    assert(changed =~= s.take(a) + mid + s.skip(b));
    assert(b + by == a + mid.len());
    assert(changed.take(a) =~= s.take(a));
    assert(changed.skip(b + by) =~= s.skip(b));
    assert(changed.subrange(a, b + by) =~= mid);
    if mid.len() > 0 {
        assert(mid.last() == '\n' && mid[0] == '\n');
        assert(changed[a] == mid[0]);
        assert(changed[b + by - 1] == mid.last());
    }
    lemma_edge_end(s, changed, p, a);
    let from = text::line_end(changed, p);
    assert forall|k: int| 0 <= k < changed.subrange(a, from).len() implies text::in_class(
        CharClass::LineEnd,
        #[trigger] changed.subrange(a, from)[k],
    ) by {
        assert(changed.subrange(a, from)[k] == changed[a]);
    }
    assert(all_in(s.subrange(a, text::line_end(s, p)), CharClass::LineEnd));
    let held = changed.subrange(from, b + by);
    let before = mid.take(from - a);
    assert(held =~= mid.skip(from - a));
    let none = Seq::<char>::empty();
    assert(mid =~= before + held + none);
    assert forall|k: int| 0 <= k < before.len() implies text::in_class(
        CharClass::LineEnd,
        #[trigger] before[k],
    ) by {
        assert(before[k] == mid[0]);
    }
    lemma_trim_around(before, held, none, CharClass::LineEnd);
    if text::is_blank(content) {
        assert forall|k: int| 0 <= k < mid.len() implies text::in_class(
            CharClass::LineEnd,
            #[trigger] mid[k],
        ) by {}
        assert(mid =~= mid + none + none);
        lemma_trim_around(mid, none, none, CharClass::LineEnd);
        assert(text::trim_both(none, CharClass::LineEnd) =~= none);
    } else {
        let inner = text::trim_both(content, CharClass::LineEnd);
        let after = if b < s.len() {
            feed + feed
        } else {
            feed
        };
        assert(mid =~= feed + inner + after);
        lemma_trim_around(feed, inner, after, CharClass::LineEnd);
        lemma_trim_again(content, CharClass::LineEnd);
    }
}

/// No heading of an edited body has a title but one before or one behind the edit.
proof fn lemma_untitled(
    s: Seq<char>,
    changed: Seq<char>,
    p: int,
    a: int,
    b: int,
    title: Seq<char>,
    i: int,
    z: int,
)
    requires
        is_edit(s, changed, p, a, b),
        read_around(s, changed, a, b),
        untitled_between(
            changed,
            edge(changed, p, a),
            b + (changed.len() - s.len()),
            title,
        ),
        forall|k: int|
            0 <= k < first_part(s, p, a).len() && k != i ==> !text::alike(
                (#[trigger] first_part(s, p, a)[k]).title,
                title,
            ),
        forall|k: int|
            0 <= k < last_part(s, b).len() && k != z ==> !text::alike(
                (#[trigger] last_part(s, b)[k]).title,
                title,
            ),
    ensures
        forall|k: int|
            0 <= k < markdown::sections_in(changed).len() && k != i && !(z >= 0 && k
                == markdown::sections_in(changed).len() - last_part(s, b).len() + z)
                ==> !outline::titled(
                #[trigger] markdown::sections_in(changed)[k],
                title,
            ),
{
    let by = changed.len() - s.len();
    let g = properties::headings_in(changed);
    let first = first_part(s, p, a);
    let again = first_part(changed, p, a);
    let mid = mid_part(changed, p, a, b + by);
    let last = last_part(s, b);
    lemma_edit(s, changed, p, a, b);
    if p < a {
        text::lemma_line_end(changed, p);
    } else {
        assert(p > 0 ==> changed[p - 1] == '\n') by {
            if p > 0 {
                assert(s.take(a)[p - 1] == s[p - 1]);
                assert(changed.take(a)[p - 1] == changed[p - 1]);
            }
        }
    }
    lemma_between(changed, markdown::marks(changed).headings, edge(changed, p, a), b + by);
    assert forall|k: int|
        0 <= k < markdown::sections_in(changed).len() && k != i && !(z >= 0 && k == g.len()
            - last.len() + z) implies !outline::titled(#[trigger] markdown::sections_in(changed)[k], title) by {
        if k < again.len() {
            assert(is_kept(first[k], again[k]));
            assert(g[k] == again[k]);
        } else if k < again.len() + mid.len() {
            let n = k - again.len();
            assert(g[k] == mid[n]);
            assert(is_heading_of(
                changed,
                markdown::marks(changed).headings,
                edge(changed, p, a),
                b + by,
                mid[n],
            ));
        } else {
            let n = k - again.len() - mid.len();
            assert(g[k] == moved(last[n], by));
        }
    }
}

/// What a set section is in the changed body: at its place, with the content.
proof fn lemma_set(s: Seq<char>, i: int, content: Seq<char>)
    requires
        s.len() <= usize::MAX,
        0 <= i < markdown::sections_in(s).len(),
        can_replace(s, i, content),
    ensures
        ({
            let section = markdown::sections_in(s)[i];
            let changed = markdown::replaced(s, section, content);
            let other = markdown::sections_in(changed)[i];
            &&& i < markdown::sections_in(changed).len()
            &&& other.title == section.title
            &&& other.level == section.level
            &&& other.start == section.start
            &&& other.content_start == text::line_end(changed, section.start as int)
            &&& other.end == section.end + (changed.len() - s.len())
            &&& markdown::content_of(changed, other) == if text::is_blank(content) {
                Seq::empty()
            } else {
                text::trim_both(content, CharClass::LineEnd)
            }
        }),
{
    let section = markdown::sections_in(s)[i];
    let changed = markdown::replaced(s, section, content);
    let p = section.start as int;
    let a = section.content_start as int;
    let b = section.end as int;
    let by = changed.len() - s.len();
    let h = properties::headings_in(s);
    let g = properties::headings_in(changed);
    lemma_section_parts(s, i);
    lemma_replacing(s, i, content);
    lemma_edit(s, changed, p, a, b);
    let first = first_part(s, p, a);
    let again = first_part(changed, p, a);
    let mid = mid_part(changed, p, a, b + by);
    let last = last_part(s, b);
    let from = text::line_end(changed, p);
    text::lemma_line_end(changed, p);
    lemma_between(changed, markdown::marks(changed).headings, from, b + by);
    assert(h[i] == first[i]);
    assert(is_kept(first[i], again[i]));
    assert(g[i] == again[i]);
    let k = i + 1 + mid.len() as int;
    assert forall|x: int| i + 1 <= x < k implies (#[trigger] g[x]).level > section.level by {
        let n = x - again.len();
        assert(g[x] == mid[n]);
        assert(is_heading_of(changed, markdown::marks(changed).headings, from, b + by, mid[n]));
    }
    let was = i + 1 + mid_part(s, p, a, b).len() as int;
    if last.len() > 0 {
        assert(g[k] == moved(last[0], by));
        assert(h[was] == last[0]);
    }
    lemma_peer(h, i + 1, section.level, s.len() as usize, was);
    lemma_peer(g, i + 1, section.level, changed.len() as usize, k);
    assert(last.len() == 0 ==> b == s.len());
}

/// Whether the content of a section can be replaced so that the section is still one: the changed body
/// fits a machine word, what follows begins with no carriage return, the Markdown parser reads the
/// rest of the body as before, and all headings in the content are deeper.
pub open spec fn can_replace(s: Seq<char>, i: int, content: Seq<char>) -> bool {
    let section = markdown::sections_in(s)[i];
    let changed = markdown::replaced(s, section, content);
    &&& changed.len() <= usize::MAX
    &&& section.end < s.len() ==> s[section.end as int] != '\r'
    &&& read_around(s, changed, section.content_start as int, section.end as int)
    &&& deeper_between(
        changed,
        section.content_start as int,
        section.end + (changed.len() - s.len()),
        section.level,
    )
}

/// A section that is set is read back: it has the content that it was given, without the line endings
/// around it.
pub proof fn a_set_section_is_read_back(s: Seq<char>, title: Seq<char>, content: Seq<char>, i: int)
    requires
        s.len() <= usize::MAX,
        outline::only_titled(markdown::sections_in(s), text::trim(title)) == Ok::<
            Option<int>,
            nat,
        >(Some(i)),
        can_replace(s, i, content),
        ({
            let section = markdown::sections_in(s)[i];
            let changed = markdown::replaced(s, section, content);
            untitled_between(
                changed,
                section.content_start as int,
                section.end + (changed.len() - s.len()),
                text::trim(title),
            )
        }),
    ensures
        markdown::section_set(s, title, content) matches Ok(changed) ==> markdown::content_named(
            changed,
            title,
        ) == Ok::<Option<Seq<char>>, Failure>(
            Some(
                if text::is_blank(content) {
                    Seq::empty()
                } else {
                    text::trim_both(content, CharClass::LineEnd)
                },
            ),
        ),
{
    let sections = markdown::sections_in(s);
    let section = sections[i];
    let changed = markdown::replaced(s, section, content);
    let p = section.start as int;
    let a = section.content_start as int;
    let b = section.end as int;
    lemma_titled(sections, text::trim(title));
    lemma_set(s, i, content);
    lemma_section_parts(s, i);
    lemma_replacing(s, i, content);
    lemma_edit(s, changed, p, a, b);
    lemma_others_untitled(s, p, a, b, text::trim(title), i);
    lemma_untitled(s, changed, p, a, b, text::trim(title), i, -1);
    lemma_only_titled(markdown::sections_in(changed), text::trim(title), i);
}

/// No heading of a body outside an edit has the title of one section.
proof fn lemma_others_untitled(s: Seq<char>, p: int, a: int, b: int, title: Seq<char>, i: int)
    requires
        properties::headings_in(s) == first_part(s, p, a) + mid_part(s, p, a, b) + last_part(s, b),
        forall|k: int|
            0 <= k < markdown::sections_in(s).len() && k != i ==> !outline::titled(
                #[trigger] markdown::sections_in(s)[k],
                title,
            ),
    ensures
        forall|k: int|
            0 <= k < first_part(s, p, a).len() && k != i ==> !text::alike(
                (#[trigger] first_part(s, p, a)[k]).title,
                title,
            ),
        forall|k: int|
            0 <= k < last_part(s, b).len() && k != i - (first_part(s, p, a).len() + mid_part(
                s,
                p,
                a,
                b,
            ).len()) ==> !text::alike((#[trigger] last_part(s, b)[k]).title, title),
{
    let first = first_part(s, p, a);
    let mid = mid_part(s, p, a, b);
    let last = last_part(s, b);
    let h = properties::headings_in(s);
    let sections = markdown::sections_in(s);
    assert forall|k: int| 0 <= k < first.len() && k != i implies !text::alike(
        (#[trigger] first[k]).title,
        title,
    ) by {
        assert(h[k] == first[k]);
        assert(!outline::titled(sections[k], title));
    }
    let n = first.len() + mid.len();
    assert forall|k: int| 0 <= k < last.len() && k != i - n implies !text::alike(
        (#[trigger] last[k]).title,
        title,
    ) by {
        assert(h[n + k] == last[k]);
        assert(!outline::titled(sections[n + k], title));
    }
}

/// A section outside an edit that is the only one with its title is read as before by that title.
proof fn lemma_named(
    s: Seq<char>,
    changed: Seq<char>,
    p: int,
    a: int,
    b: int,
    title: Seq<char>,
    j: int,
    k: int,
)
    requires
        is_edit(s, changed, p, a, b),
        read_around(s, changed, a, b),
        untitled_between(
            changed,
            edge(changed, p, a),
            b + (changed.len() - s.len()),
            text::trim(title),
        ),
        outline::only_titled(markdown::sections_in(s), text::trim(title)) == Ok::<
            Option<int>,
            nat,
        >(Some(j)),
        0 <= k < markdown::sections_in(changed).len(),
        same_section(s, markdown::sections_in(s)[j], changed, markdown::sections_in(changed)[k]),
        k == j && j < first_part(s, p, a).len() || k - j == markdown::sections_in(changed).len()
            - markdown::sections_in(s).len() && j >= first_part(s, p, a).len() + mid_part(
            s,
            p,
            a,
            b,
        ).len(),
    ensures
        markdown::content_named(changed, title) == markdown::content_named(s, title),
{
    let t = text::trim(title);
    let n = first_part(s, p, a).len() + mid_part(s, p, a, b).len();
    lemma_edit(s, changed, p, a, b);
    lemma_titled(markdown::sections_in(s), t);
    lemma_others_untitled(s, p, a, b, t, j);
    if j < first_part(s, p, a).len() {
        lemma_untitled(s, changed, p, a, b, t, j, -1);
    } else {
        lemma_untitled(s, changed, p, a, b, t, -1, j - n);
    }
    lemma_only_titled(markdown::sections_in(changed), t, k);
}

/// Setting a section keeps the others: one that ends before it has its title, level and content at its
/// place in the list, and so has one that begins behind it, counted from the end of the list. Where
/// such a section is the only one with its title, it is read as before by that title.
pub proof fn setting_a_section_keeps_the_neighbours(
    s: Seq<char>,
    i: int,
    content: Seq<char>,
    j: int,
)
    requires
        s.len() <= usize::MAX,
        0 <= i < markdown::sections_in(s).len(),
        0 <= j < markdown::sections_in(s).len(),
        can_replace(s, i, content),
        markdown::sections_in(s)[j].end <= markdown::sections_in(s)[i].start
            || markdown::sections_in(s)[i].end <= markdown::sections_in(s)[j].start,
    ensures
        ({
            let section = markdown::sections_in(s)[i];
            let changed = markdown::replaced(s, section, content);
            let k = if j < i {
                j
            } else {
                j + markdown::sections_in(changed).len() - markdown::sections_in(s).len()
            };
            &&& 0 <= k < markdown::sections_in(changed).len()
            &&& same_section(
                s,
                markdown::sections_in(s)[j],
                changed,
                markdown::sections_in(changed)[k],
            )
            &&& forall|title: Seq<char>|
                outline::only_titled(markdown::sections_in(s), text::trim(title)) == Ok::<
                    Option<int>,
                    nat,
                >(Some(j)) && untitled_between(
                    changed,
                    section.content_start as int,
                    section.end + (changed.len() - s.len()),
                    text::trim(title),
                ) ==> #[trigger] markdown::content_named(changed, title)
                    == markdown::content_named(s, title)
        }),
{
    let sections = markdown::sections_in(s);
    let section = sections[i];
    let changed = markdown::replaced(s, section, content);
    let p = section.start as int;
    let a = section.content_start as int;
    let b = section.end as int;
    lemma_replacing(s, i, content);
    lemma_neighbour(s, i, content, j);
    let k = if j < i {
        j
    } else {
        j + markdown::sections_in(changed).len() - sections.len()
    };
    assert forall|title: Seq<char>|
        outline::only_titled(sections, text::trim(title)) == Ok::<Option<int>, nat>(Some(j))
            && untitled_between(
            changed,
            section.content_start as int,
            section.end + (changed.len() - s.len()),
            text::trim(title),
        ) implies #[trigger] markdown::content_named(changed, title) == markdown::content_named(
        s,
        title,
    ) by {
        lemma_named(s, changed, p, a, b, title, j, k);
    }
}

proof fn lemma_neighbour(s: Seq<char>, i: int, content: Seq<char>, j: int)
    requires
        s.len() <= usize::MAX,
        0 <= i < markdown::sections_in(s).len(),
        0 <= j < markdown::sections_in(s).len(),
        can_replace(s, i, content),
        markdown::sections_in(s)[j].end <= markdown::sections_in(s)[i].start
            || markdown::sections_in(s)[i].end <= markdown::sections_in(s)[j].start,
    ensures
        ({
            let section = markdown::sections_in(s)[i];
            let changed = markdown::replaced(s, section, content);
            let p = section.start as int;
            let a = section.content_start as int;
            let b = section.end as int;
            let k = if j < i {
                j
            } else {
                j + markdown::sections_in(changed).len() - markdown::sections_in(s).len()
            };
            &&& 0 <= k < markdown::sections_in(changed).len()
            &&& same_section(
                s,
                markdown::sections_in(s)[j],
                changed,
                markdown::sections_in(changed)[k],
            )
            &&& j < i && j < first_part(s, p, a).len() || j > i && j >= first_part(s, p, a).len()
                + mid_part(s, p, a, b).len()
        }),
{
    let sections = markdown::sections_in(s);
    let section = sections[i];
    let changed = markdown::replaced(s, section, content);
    let p = section.start as int;
    let a = section.content_start as int;
    let b = section.end as int;
    lemma_section_parts(s, i);
    lemma_replacing(s, i, content);
    let n = first_part(s, p, a).len() + mid_part(s, p, a, b).len();
    if sections[j].end <= p {
        let m = lemma_ends_before(s, i, j);
        lemma_before(s, changed, p, a, b, j, m);
    } else {
        lemma_past(s, i, j);
        lemma_behind(s, changed, p, a, b, j - n);
    }
}

/// A section that ends before another one has its next peer no later than that.
proof fn lemma_ends_before(s: Seq<char>, i: int, j: int) -> (m: int)
    requires
        s.len() <= usize::MAX,
        0 <= i < markdown::sections_in(s).len(),
        0 <= j < markdown::sections_in(s).len(),
        markdown::sections_in(s)[j].end <= markdown::sections_in(s)[i].start,
    ensures
        j < m <= i,
        is_peer(properties::headings_in(s), j + 1, properties::headings_in(s)[j].level, m),
        markdown::sections_in(s)[j].end == markdown::sections_in(s)[m].start,
{
    let h = properties::headings_in(s);
    properties::lemma_headings_in(s);
    properties::sections_are_lines(s, j);
    properties::sections_are_lines(s, i);
    if j > i {
        assert(h[i].start < h[j].start);
    }
    let m = find_peer(h, j + 1, h[j].level);
    lemma_peer(h, j + 1, h[j].level, s.len() as usize, m);
    if m > i && m < h.len() {
        assert(h[i].start < h[m].start);
    }
    m
}

/// A section that begins behind another one is behind those within it.
proof fn lemma_past(s: Seq<char>, i: int, j: int)
    requires
        s.len() <= usize::MAX,
        0 <= i < markdown::sections_in(s).len(),
        0 <= j < markdown::sections_in(s).len(),
        markdown::sections_in(s)[i].end <= markdown::sections_in(s)[j].start,
    ensures
        ({
            let section = markdown::sections_in(s)[i];
            let p = section.start as int;
            let a = section.content_start as int;
            let b = section.end as int;
            let n = first_part(s, p, a).len() + mid_part(s, p, a, b).len();
            n <= j < n + last_part(s, b).len() && j > i
        }),
{
    let section = markdown::sections_in(s)[i];
    let p = section.start as int;
    let a = section.content_start as int;
    let b = section.end as int;
    let h = properties::headings_in(s);
    let first = first_part(s, p, a);
    let mid = mid_part(s, p, a, b);
    lemma_section_parts(s, i);
    lemma_between(s, markdown::marks(s).headings, 0, a);
    lemma_between(s, markdown::marks(s).headings, a, b);
    if j < first.len() {
        assert(h[j] == first[j]);
        assert(is_heading_of(s, markdown::marks(s).headings, 0, a, first[j]));
    } else if j < first.len() + mid.len() {
        assert(h[j] == mid[j - first.len()]);
        assert(is_heading_of(s, markdown::marks(s).headings, a, b, mid[j - first.len()]));
    }
}

/// Setting a section to the content that it was just given changes nothing more. A heading in the
/// last line without a line feed is left out: it gets one when it is first given a content.
pub proof fn setting_a_section_again_changes_nothing(
    s: Seq<char>,
    title: Seq<char>,
    content: Seq<char>,
    i: int,
)
    requires
        s.len() <= usize::MAX,
        outline::only_titled(markdown::sections_in(s), text::trim(title)) == Ok::<
            Option<int>,
            nat,
        >(Some(i)),
        can_replace(s, i, content),
        s[markdown::sections_in(s)[i].content_start - 1] == '\n',
        ({
            let section = markdown::sections_in(s)[i];
            let changed = markdown::replaced(s, section, content);
            untitled_between(
                changed,
                section.content_start as int,
                section.end + (changed.len() - s.len()),
                text::trim(title),
            )
        }),
    ensures
        ({
            let changed = markdown::replaced(s, markdown::sections_in(s)[i], content);
            markdown::section_set(changed, title, content) matches Ok(again) ==> again == changed
        }),
{
    let sections = markdown::sections_in(s);
    let section = sections[i];
    let changed = markdown::replaced(s, section, content);
    let other = markdown::sections_in(changed)[i];
    let p = section.start as int;
    let a = section.content_start as int;
    let b = section.end as int;
    let by = changed.len() - s.len();
    lemma_titled(sections, text::trim(title));
    lemma_set(s, i, content);
    lemma_section_parts(s, i);
    lemma_replacing(s, i, content);
    lemma_edit(s, changed, p, a, b);
    lemma_others_untitled(s, p, a, b, text::trim(title), i);
    lemma_untitled(s, changed, p, a, b, text::trim(title), i, -1);
    lemma_only_titled(markdown::sections_in(changed), text::trim(title), i);
    properties::replacing_keeps_every_other_byte(s, i, content);
    assert(b < s.len() ==> changed[b + by] == s[b]) by {
        if b < s.len() {
            assert(s.skip(b)[0] == s[b]);
            assert(changed.skip(b + by)[0] == changed[b + by]);
        }
    }
    properties::replacing_keeps_every_other_byte(changed, i, content);
    assert(other.content_start == a && other.end == b + by);
    assert(markdown::replaced(changed, other, content) =~= changed);
}

/// A text that neither begins nor ends with a character of a class has none around it.
pub proof fn lemma_trimmed(s: Seq<char>, class: CharClass)
    requires
        s.len() > 0,
        !text::in_class(class, s[0]),
        !text::in_class(class, s.last()),
    ensures
        text::trim_both(s, class) == s,
{
    text::lemma_lead(s, class, 0);
    assert(text::trim_start(s, class) =~= s);
    text::lemma_trail(s, class, 0);
    assert(text::trim_end(s, class) =~= s);
}

/// A text without characters of a class around it begins and ends with others.
pub proof fn lemma_ends_of_trimmed(s: Seq<char>, class: CharClass)
    ensures
        text::trim_both(s, class).len() > 0 ==> !text::in_class(class, text::trim_both(s, class)[0])
            && !text::in_class(class, text::trim_both(s, class).last()),
{
    let first = text::trim_start(s, class);
    text::lemma_lead_is(s, class);
    text::lemma_trail_is(first, class);
    let both = text::trim_both(s, class);
    if both.len() > 0 {
        assert(both[0] == first[0]);
        assert(first[0] == s[text::lead(s, class) as int]);
        assert(both.last() == first[first.len() - text::trail(first, class) - 1]);
    }
}

/// A text that is not blank is not blank without the line endings around it.
pub proof fn lemma_not_blank(s: Seq<char>)
    requires
        !text::is_blank(s),
    ensures
        !text::is_blank(text::trim_both(s, CharClass::LineEnd)),
        text::trim_both(s, CharClass::LineEnd).len() > 0,
{
    let first = text::trim_start(s, CharClass::LineEnd);
    let lead = text::lead(s, CharClass::LineEnd) as int;
    let both = text::trim_both(s, CharClass::LineEnd);
    text::lemma_lead_is(s, CharClass::LineEnd);
    text::lemma_trail_is(first, CharClass::LineEnd);
    let k = choose|k: int| 0 <= k < s.len() && !text::is_space(#[trigger] s[k]);
    assert(lead <= k);
    assert(first[k - lead] == s[k]);
    if k - lead >= both.len() {
        assert(text::in_class(CharClass::LineEnd, first[k - lead]));
    }
    assert(both[k - lead] == s[k]);
}

/// A section to which a paragraph was added reads as before, with a blank line and the paragraph behind
/// that, or as the paragraph alone where it held nothing.
pub proof fn an_extended_section_is_read_back(
    s: Seq<char>,
    title: Seq<char>,
    content: Seq<char>,
    i: int,
)
    requires
        s.len() <= usize::MAX,
        !text::is_blank(content),
        outline::only_titled(markdown::sections_in(s), text::trim(title)) == Ok::<
            Option<int>,
            nat,
        >(Some(i)),
        ({
            let section = markdown::sections_in(s)[i];
            let next = markdown::continued(Some(markdown::content_of(s, section)), content);
            let changed = markdown::replaced(s, section, next);
            &&& can_replace(s, i, next)
            &&& untitled_between(
                changed,
                section.content_start as int,
                section.end + (changed.len() - s.len()),
                text::trim(title),
            )
        }),
    ensures
        ({
            let present = markdown::content_of(s, markdown::sections_in(s)[i]);
            let added = text::trim_both(content, CharClass::LineEnd);
            markdown::section_extended(s, title, content) matches Ok(changed)
                ==> markdown::content_named(changed, title) == Ok::<Option<Seq<char>>, Failure>(
                Some(
                    if text::is_blank(present) {
                        added
                    } else {
                        present + "\n\n"@ + added
                    },
                ),
            )
        }),
{
    let section = markdown::sections_in(s)[i];
    let present = markdown::content_of(s, section);
    let held = s.subrange(section.content_start as int, section.end as int);
    let added = text::trim_both(content, CharClass::LineEnd);
    let next = markdown::continued(Some(present), content);
    lemma_not_blank(content);
    lemma_ends_of_trimmed(content, CharClass::LineEnd);
    lemma_ends_of_trimmed(held, CharClass::LineEnd);
    let k = choose|k: int| 0 <= k < added.len() && !text::is_space(#[trigger] added[k]);
    if text::is_blank(present) {
        lemma_trimmed(added, CharClass::LineEnd);
        assert(next == added);
    } else {
        text::lemma_trail(present, CharClass::LineEnd, 0);
        assert(text::trim_end(present, CharClass::LineEnd) =~= present);
        assert(next == present + "\n\n"@ + added);
        assert(next[0] == present[0]);
        assert(next.last() == added.last());
        lemma_trimmed(next, CharClass::LineEnd);
        assert(next[next.len() - added.len() + k] == added[k]);
    }
    assert(!text::is_blank(next));
    a_set_section_is_read_back(s, title, next, i);
}

/// The content of a section is kept where only line endings stand behind an index.
proof fn lemma_cut_content(
    s: Seq<char>,
    changed: Seq<char>,
    a: int,
    section: RegionView,
    other: RegionView,
)
    requires
        0 <= a <= section.end <= s.len(),
        a <= other.end <= changed.len(),
        section.content_start <= section.end,
        other.content_start <= other.end,
        changed.take(a) == s.take(a),
        section.content_start == other.content_start || section.content_start >= a
            && other.content_start >= a,
        all_in(s.subrange(a, section.end as int), CharClass::LineEnd),
        all_in(changed.subrange(a, other.end as int), CharClass::LineEnd),
    ensures
        markdown::content_of(s, section) == markdown::content_of(changed, other),
{
    let none = Seq::<char>::empty();
    let x = s.subrange(section.content_start as int, section.end as int);
    let y = changed.subrange(other.content_start as int, other.end as int);
    if section.content_start == other.content_start && section.content_start <= a {
        let from = section.content_start as int;
        let common = s.subrange(from, a);
        assert(common =~= changed.subrange(from, a)) by {
            assert forall|i: int| from <= i < a implies s[i] == changed[i] by {
                assert(s.take(a)[i] == s[i]);
                assert(changed.take(a)[i] == changed[i]);
            }
        }
        assert(x =~= none + common + s.subrange(a, section.end as int));
        assert(y =~= none + common + changed.subrange(a, other.end as int));
        lemma_trim_around(none, common, s.subrange(a, section.end as int), CharClass::LineEnd);
        lemma_trim_around(none, common, changed.subrange(a, other.end as int), CharClass::LineEnd);
    } else {
        assert forall|i: int| 0 <= i < x.len() implies text::in_class(
            CharClass::LineEnd,
            #[trigger] x[i],
        ) by {
            assert(x[i] == s.subrange(a, section.end as int)[section.content_start - a + i]);
        }
        assert forall|i: int| 0 <= i < y.len() implies text::in_class(
            CharClass::LineEnd,
            #[trigger] y[i],
        ) by {
            assert(y[i] == changed.subrange(a, other.end as int)[other.content_start - a + i]);
        }
        assert(x =~= x + none + none);
        assert(y =~= y + none + none);
        lemma_trim_around(x, none, none, CharClass::LineEnd);
        lemma_trim_around(y, none, none, CharClass::LineEnd);
    }
}

/// A section that reaches up to an edit is kept where only line endings stand between.
proof fn lemma_up_to(
    s: Seq<char>,
    changed: Seq<char>,
    p: int,
    a: int,
    b: int,
    j: int,
)
    requires
        is_edit(s, changed, p, a, b),
        read_around(s, changed, a, b),
        0 <= j < first_part(s, p, a).len(),
        j < markdown::sections_in(changed).len(),
        ({
            let end = markdown::sections_in(s)[j].end as int;
            let other = markdown::sections_in(changed)[j].end as int;
            &&& edge(s, p, a) <= end <= s.len()
            &&& edge(changed, p, a) <= other <= changed.len()
            &&& all_in(s.subrange(a, end), CharClass::LineEnd)
            &&& all_in(changed.subrange(a, other), CharClass::LineEnd)
        }),
    ensures
        same_section(
            s,
            markdown::sections_in(s)[j],
            changed,
            markdown::sections_in(changed)[j],
        ),
{
    let first = first_part(s, p, a);
    let again = first_part(changed, p, a);
    lemma_edit(s, changed, p, a, b);
    assert(properties::headings_in(s)[j] == first[j]);
    assert(properties::headings_in(changed)[j] == again[j]);
    assert(is_kept(first[j], again[j]));
    if p < a {
        text::lemma_line_end(s, p);
        text::lemma_line_end(changed, p);
    }
    lemma_cut_content(
        s,
        changed,
        a,
        markdown::sections_in(s)[j],
        markdown::sections_in(changed)[j],
    );
}

/// The last line of a text that ends with no line ending.
proof fn lemma_last_line(s: Seq<char>, a: int, to: int)
    requires
        0 <= a <= to <= s.len(),
        a > 0 ==> s[a - 1] != '\n',
        is_line_break(s, to),
    ensures
        ({
            let p = text::line_start(s, a);
            &&& 0 <= p <= a
            &&& a > 0 ==> p < a && a <= text::line_end(s, p) <= to
            &&& p == 0 || s[p - 1] == '\n'
        }),
{
    let p = text::line_start(s, a);
    text::lemma_line_start(s, a);
    if a > 0 {
        if p == a {
            assert(s[a - 1] == '\n');
        }
        text::lemma_line_end(s, p);
        if text::line_end(s, p) < a {
            assert(s[text::line_end(s, p) - 1] == '\n');
        }
        lemma_line_within(s, p, to);
    }
}

/// Where the last line of a text ends that is followed by a line feed.
proof fn lemma_followed(s: Seq<char>, changed: Seq<char>, a: int)
    requires
        0 < a <= s.len(),
        a <= changed.len(),
        changed.take(a) == s.take(a),
        s[a - 1] != '\n',
        changed.len() > a ==> changed[a] == '\n',
    ensures
        text::line_end(changed, text::line_start(s, a)) == if changed.len() > a {
            a + 1
        } else {
            a
        },
{
    let p = text::line_start(s, a);
    text::lemma_line_start(s, a);
    assert forall|i: int| p <= i < a implies #[trigger] changed[i] != '\n' by {
        assert(s.take(a)[i] == s[i]);
        assert(changed.take(a)[i] == changed[i]);
    }
    text::lemma_next_index(changed, '\n', p, a);
}

/// Where a removed section was, nothing is left but line endings.
spec fn remaining(s: Seq<char>, i: int) -> (int, int) {
    let section = markdown::sections_in(s)[i];
    let a = text::trim_end(s.take(section.start as int), CharClass::LineEnd).len() as int;
    (text::line_start(s, a), a)
}

/// Removing a section is an edit of what reaches from the end of what stands before it to its own end.
proof fn lemma_removing(s: Seq<char>, i: int)
    requires
        s.len() <= usize::MAX,
        0 <= i < markdown::sections_in(s).len(),
        markdown::without_region(s, markdown::sections_in(s)[i]).len() <= usize::MAX,
        markdown::sections_in(s)[i].end < s.len() ==> s[markdown::sections_in(s)[i].end as int]
            != '\r',
    ensures
        ({
            let section = markdown::sections_in(s)[i];
            let changed = markdown::without_region(s, section);
            let (p, a) = remaining(s, i);
            let b = section.end as int;
            let by = changed.len() - s.len();
            &&& is_edit(s, changed, p, a, b)
            &&& edge(s, p, a) <= section.start
            &&& edge(changed, p, a) <= b + by
            &&& all_in(s.subrange(a, section.start as int), CharClass::LineEnd)
            &&& all_in(changed.subrange(a, b + by), CharClass::LineEnd)
        }),
{
    let section = markdown::sections_in(s)[i];
    let changed = markdown::without_region(s, section);
    let start = section.start as int;
    let b = section.end as int;
    let by = changed.len() - s.len();
    let head = s.take(start);
    let before = text::trim_end(head, CharClass::LineEnd);
    let (p, a) = remaining(s, i);
    let tail = s.skip(b);
    lemma_section_parts(s, i);
    lemma_breaks(s, i);
    text::lemma_trail_is(head, CharClass::LineEnd);
    reveal_strlit("\n");
    reveal_strlit("\n\n");
    assert("\n"@ =~= seq!['\n']);
    assert("\n\n"@ =~= seq!['\n', '\n']);
    assert forall|k: int| 0 <= k < s.subrange(a, start).len() implies text::in_class(
        CharClass::LineEnd,
        #[trigger] s.subrange(a, start)[k],
    ) by {
        assert(s.subrange(a, start)[k] == head[a + k]);
    }
    assert(a > 0 ==> !text::in_class(CharClass::LineEnd, s[a - 1])) by {
        if a > 0 {
            assert(head[a - 1] == s[a - 1]);
        }
    }
    lemma_last_line(s, a, start);
    assert(before =~= s.take(a));
    if b < s.len() {
        lemma_next_heading(s, i);
        assert(tail[0] == s[b]);
        text::lemma_lead(tail, CharClass::LineEnd, 0);
        assert(text::trim_start(tail, CharClass::LineEnd) =~= tail);
        let gap = if a > 0 {
            "\n\n"@
        } else {
            Seq::empty()
        };
        let kept = before + gap + tail;
        assert(kept.last() == s.last());
        if text::finishes(s, "\n"@) {
            properties::lemma_finishes_one(s);
            properties::lemma_finishes_one(kept);
        }
        assert(changed == kept);
        assert(changed.skip(b + by) =~= tail);
        assert(changed.subrange(a, b + by) =~= gap);
    } else {
        assert(tail =~= Seq::<char>::empty());
        assert(text::trim_start(tail, CharClass::LineEnd) =~= Seq::<char>::empty());
        assert(before + Seq::<char>::empty() + Seq::<char>::empty() =~= before);
        assert(changed == before || changed == before + "\n"@);
        assert(changed.skip(b + by) =~= tail);
    }
    assert(changed.take(a) =~= s.take(a));
    if a > 0 {
        lemma_followed(s, changed, a);
        let e = text::line_end(s, p);
        assert forall|k: int| 0 <= k < s.subrange(a, e).len() implies text::in_class(
            CharClass::LineEnd,
            #[trigger] s.subrange(a, e)[k],
        ) by {
            assert(s.subrange(a, e)[k] == s.subrange(a, start)[k]);
        }
        let f = text::line_end(changed, p);
        assert forall|k: int| 0 <= k < changed.subrange(a, f).len() implies text::in_class(
            CharClass::LineEnd,
            #[trigger] changed.subrange(a, f)[k],
        ) by {
            assert(changed.subrange(a, f)[k] == changed[a + k]);
        }
    }
}

/// The section behind another one begins with no line feed.
pub proof fn lemma_next_heading(s: Seq<char>, i: int)
    requires
        s.len() <= usize::MAX,
        0 <= i < markdown::sections_in(s).len(),
        markdown::sections_in(s)[i].end < s.len(),
    ensures
        s[markdown::sections_in(s)[i].end as int] != '\n',
{
    let h = properties::headings_in(s);
    let section = markdown::sections_in(s)[i];
    properties::lemma_headings_in(s);
    properties::sections_are_lines(s, i);
    let k = choose|k: int|
        i < k < markdown::sections_in(s).len() && (#[trigger] markdown::sections_in(s)[k]).start
            == section.end;
    assert(properties::is_heading(s, markdown::marks(s).headings, h[k]));
    properties::lemma_heading_line(s, markdown::marks(s).headings, h[k]);
}

/// Whether a section can be removed so that the others are read as before: what follows begins with no
/// carriage return, and the Markdown parser reads the rest of the body as before.
pub open spec fn can_remove(s: Seq<char>, i: int) -> bool {
    let section = markdown::sections_in(s)[i];
    let changed = markdown::without_region(s, section);
    &&& changed.len() <= usize::MAX
    &&& section.end < s.len() ==> s[section.end as int] != '\r'
    &&& read_around(s, changed, section.start as int, section.end as int)
}

/// The headings that removing a section leaves.
proof fn lemma_removed(s: Seq<char>, i: int)
    requires
        s.len() <= usize::MAX,
        0 <= i < markdown::sections_in(s).len(),
        can_remove(s, i),
    ensures
        ({
            let section = markdown::sections_in(s)[i];
            let changed = markdown::without_region(s, section);
            let (p, a) = remaining(s, i);
            let b = section.end as int;
            let by = changed.len() - s.len();
            let h = properties::headings_in(s);
            let first = first_part(s, p, a);
            &&& is_edit(s, changed, p, a, b)
            &&& read_around(s, changed, a, b)
            &&& h == first + mid_part(s, p, a, b) + last_part(s, b)
            &&& properties::headings_in(changed) == first_part(changed, p, a) + all_moved(
                last_part(s, b),
                by,
            )
            &&& mid_part(changed, p, a, b + by).len() == 0
            &&& first.len() == i
            &&& is_peer(h, i + 1, section.level, (first.len() + mid_part(s, p, a, b).len()) as int)
        }),
{
    let section = markdown::sections_in(s)[i];
    let changed = markdown::without_region(s, section);
    let (p, a) = remaining(s, i);
    let start = section.start as int;
    let b = section.end as int;
    let by = changed.len() - s.len();
    let spans = markdown::marks(s).headings;
    let h = properties::headings_in(s);
    lemma_section_parts(s, i);
    lemma_removing(s, i);
    lemma_edit(s, changed, p, a, b);
    properties::lemma_headings_in(s);
    let first = first_part(s, p, a);
    let mid = mid_part(s, p, a, b);
    let e = edge(s, p, a);
    let f = edge(changed, p, a);
    assert forall|k: int| 0 <= k < s.subrange(e, start).len() implies text::in_class(
        CharClass::LineEnd,
        #[trigger] s.subrange(e, start)[k],
    ) by {
        assert(s.subrange(e, start)[k] == s.subrange(a, start)[e - a + k]);
    }
    assert forall|k: int| 0 <= k < changed.subrange(f, b + by).len() implies text::in_class(
        CharClass::LineEnd,
        #[trigger] changed.subrange(f, b + by)[k],
    ) by {
        assert(changed.subrange(f, b + by)[k] == changed.subrange(a, b + by)[f - a + k]);
    }
    lemma_no_headings(s, spans, e, start);
    lemma_no_headings(changed, markdown::marks(changed).headings, f, b + by);
    assert(first_part(changed, p, a) + Seq::<HeadingView>::empty() =~= first_part(changed, p, a));
    lemma_split(s, spans, e, start, b);
    assert(mid =~= headings_between(s, spans, start, b));
    lemma_between(s, spans, start, b);
    lemma_between(s, spans, b, s.len() as int);
    assert(first.len() == i) by {
        if i < first.len() {
            assert(h[i] == first[i]);
        } else if first.len() < i {
            let n = first.len() as int;
            assert(h[n].start < h[i].start);
            if n < first.len() + mid.len() {
                assert(h[n] == mid[0]);
                assert(is_heading_of(s, spans, start, b, mid[0]));
            } else {
                assert(h[n] == last_part(s, b)[0]);
                assert(is_heading_of(s, spans, b, s.len() as int, last_part(s, b)[0]));
            }
        }
    }
}

/// A section that is removed is not found any more.
pub proof fn a_removed_section_is_gone(s: Seq<char>, title: Seq<char>, i: int)
    requires
        s.len() <= usize::MAX,
        outline::only_titled(markdown::sections_in(s), text::trim(title)) == Ok::<
            Option<int>,
            nat,
        >(Some(i)),
        can_remove(s, i),
    ensures
        markdown::section_removed(s, title) matches Ok(changed) ==> markdown::content_named(
            changed,
            title,
        ) == Ok::<Option<Seq<char>>, Failure>(None),
{
    let t = text::trim(title);
    let sections = markdown::sections_in(s);
    lemma_titled(sections, t);
    let section = sections[i];
    let changed = markdown::without_region(s, section);
    let (p, a) = remaining(s, i);
    let b = section.end as int;
    let by = changed.len() - s.len();
    lemma_removed(s, i);
    lemma_others_untitled(s, p, a, b, t, i);
    lemma_edit(s, changed, p, a, b);
    let g = properties::headings_in(changed);
    let first = first_part(s, p, a);
    let again = first_part(changed, p, a);
    let last = last_part(s, b);
    assert(mid_part(s, p, a, b).len() > 0) by {
        if mid_part(s, p, a, b).len() == 0 {
            assert(is_peer(properties::headings_in(s), i + 1, section.level, i));
        }
    }
    assert forall|k: int| 0 <= k < markdown::sections_in(changed).len() implies !outline::titled(
        #[trigger] markdown::sections_in(changed)[k],
        t,
    ) by {
        if k < again.len() {
            assert(g[k] == again[k]);
            assert(is_kept(first[k], again[k]));
        } else {
            assert(g[k] == moved(last[k - again.len()], by));
        }
    }
    lemma_none_titled(markdown::sections_in(changed), t);
}

proof fn lemma_left(s: Seq<char>, i: int, j: int)
    requires
        s.len() <= usize::MAX,
        0 <= i < markdown::sections_in(s).len(),
        0 <= j < markdown::sections_in(s).len(),
        can_remove(s, i),
        markdown::sections_in(s)[j].end <= markdown::sections_in(s)[i].start,
    ensures
        j < i,
        j < markdown::sections_in(markdown::without_region(s, markdown::sections_in(s)[i])).len(),
        same_section(
            s,
            markdown::sections_in(s)[j],
            markdown::without_region(s, markdown::sections_in(s)[i]),
            markdown::sections_in(markdown::without_region(s, markdown::sections_in(s)[i]))[j],
        ),
{
    let section = markdown::sections_in(s)[i];
    let changed = markdown::without_region(s, section);
    let (p, a) = remaining(s, i);
    let b = section.end as int;
    let by = changed.len() - s.len();
    let h = properties::headings_in(s);
    let g = properties::headings_in(changed);
    lemma_removed(s, i);
    lemma_removing(s, i);
    lemma_edit(s, changed, p, a, b);
    let m = lemma_ends_before(s, i, j);
    let first = first_part(s, p, a);
    let again = first_part(changed, p, a);
    let last = last_part(s, b);
    if m < i {
        lemma_before(s, changed, p, a, b, j, m);
    } else {
        let level = h[j].level;
        let k = (first.len() + mid_part(s, p, a, b).len()) as int;
        assert(h[j] == first[j]);
        assert(g[j] == again[j]);
        assert(is_kept(first[j], again[j]));
        assert forall|x: int| j + 1 <= x < i implies (#[trigger] g[x]).level > level by {
            assert(g[x] == again[x]);
            assert(h[x] == first[x]);
            assert(is_kept(first[x], again[x]));
        }
        if last.len() > 0 {
            assert(g[i] == moved(last[0], by));
            assert(h[k] == last[0]);
            lemma_between(s, markdown::marks(s).headings, b, s.len() as int);
            assert(is_heading_of(s, markdown::marks(s).headings, b, s.len() as int, last[0]));
            lemma_section_parts(s, i);
            lemma_peer(h, i + 1, section.level, s.len() as usize, k);
        } else {
            lemma_peer(h, i + 1, section.level, s.len() as usize, k);
        }
        lemma_peer(g, j + 1, level, changed.len() as usize, i);
        assert(markdown::sections_in(changed)[j].end == b + by);
        properties::sections_are_lines(s, i);
        assert(markdown::sections_in(s)[j].end == section.start);
        assert(b + by <= changed.len());
        lemma_up_to(s, changed, p, a, b, j);
    }
}

/// Removing a section keeps the others: one that ends before it has its title, level and content at its
/// place in the list, and so has one that begins behind it, counted from the end of the list. Where
/// such a section is the only one with its title, it is read as before by that title.
pub proof fn removing_a_section_keeps_the_neighbours(s: Seq<char>, i: int, j: int)
    requires
        s.len() <= usize::MAX,
        0 <= i < markdown::sections_in(s).len(),
        0 <= j < markdown::sections_in(s).len(),
        can_remove(s, i),
        markdown::sections_in(s)[j].end <= markdown::sections_in(s)[i].start
            || markdown::sections_in(s)[i].end <= markdown::sections_in(s)[j].start,
    ensures
        ({
            let changed = markdown::without_region(s, markdown::sections_in(s)[i]);
            let k = if j < i {
                j
            } else {
                j + markdown::sections_in(changed).len() - markdown::sections_in(s).len()
            };
            &&& 0 <= k < markdown::sections_in(changed).len()
            &&& same_section(
                s,
                markdown::sections_in(s)[j],
                changed,
                markdown::sections_in(changed)[k],
            )
            &&& forall|title: Seq<char>|
                outline::only_titled(markdown::sections_in(s), text::trim(title)) == Ok::<
                    Option<int>,
                    nat,
                >(Some(j)) ==> #[trigger] markdown::content_named(changed, title)
                    == markdown::content_named(s, title)
        }),
{
    let sections = markdown::sections_in(s);
    let section = sections[i];
    let changed = markdown::without_region(s, section);
    let (p, a) = remaining(s, i);
    let b = section.end as int;
    let by = changed.len() - s.len();
    let k = if j < i {
        j
    } else {
        j + markdown::sections_in(changed).len() - sections.len()
    };
    let n = (first_part(s, p, a).len() + mid_part(s, p, a, b).len()) as int;
    lemma_removed(s, i);
    lemma_removing(s, i);
    if sections[j].end <= section.start {
        lemma_left(s, i, j);
    } else {
        lemma_past(s, i, j);
        lemma_section_parts(s, i);
        assert(j >= n);
        lemma_behind(s, changed, p, a, b, j - n);
    }
    assert forall|title: Seq<char>|
        outline::only_titled(sections, text::trim(title)) == Ok::<Option<int>, nat>(
            Some(j),
        ) implies #[trigger] markdown::content_named(changed, title) == markdown::content_named(
        s,
        title,
    ) by {
        lemma_blank_lines(changed, edge(changed, p, a), b + by, text::trim(title), a);
        lemma_named(s, changed, p, a, b, title, j, k);
    }
}

/// Lines of nothing but line endings have no title.
proof fn lemma_blank_lines(s: Seq<char>, from: int, to: int, title: Seq<char>, a: int)
    requires
        0 <= a <= from,
        to <= s.len(),
        is_line_break(s, to),
        all_in(s.subrange(a, to), CharClass::LineEnd),
    ensures
        untitled_between(s, from, to, title),
{
    let spans = markdown::marks(s).headings;
    assert forall|at: int| from <= at < to && is_line_break(s, at) implies (
    #[trigger] markdown::line_heading(s, spans, at)) is None by {
        lemma_line_within(s, at, to);
        assert forall|k: int| 0 <= k < s.subrange(at, to).len() implies text::in_class(
            CharClass::LineEnd,
            #[trigger] s.subrange(at, to)[k],
        ) by {
            assert(s.subrange(at, to)[k] == s.subrange(a, to)[at - a + k]);
        }
        lemma_no_headings(s, spans, at, to);
    }
}

/// Where a new section begins: behind what stands before it and a blank line.
pub open spec fn new_start(s: Seq<char>) -> int {
    let base = text::trim_end(s, CharClass::LineEnd);
    if base.len() == 0 {
        0
    } else {
        base.len() as int + 2
    }
}

/// Whether a section can be added so that it is one: the changed body fits a machine word, the title
/// is read as it is written, the Markdown parser reads the body before it as it was and reports the
/// new heading, and all headings in the content are deeper.
pub open spec fn can_add(s: Seq<char>, title: Seq<char>, content: Seq<char>) -> bool {
    let changed = markdown::with_section(s, title, content);
    let start = new_start(s);
    &&& changed.len() <= usize::MAX
    &&& outline::atx("## "@ + text::trim(title)) == Some((2u8, text::trim(title)))
    &&& reports_before(s, changed, text::trim_end(s, CharClass::LineEnd).len() as int)
    &&& reports(changed, start)
    &&& deeper_between(changed, start + 1, changed.len() as int, 2)
}

/// Adding a section is an edit behind what stands before it.
pub proof fn lemma_adding(s: Seq<char>, title: Seq<char>, content: Seq<char>)
    requires
        s.len() <= usize::MAX,
        markdown::title_check(title) is Ok,
        markdown::with_section(s, title, content).len() <= usize::MAX,
    ensures
        ({
            let changed = markdown::with_section(s, title, content);
            let a = text::trim_end(s, CharClass::LineEnd).len() as int;
            let p = text::line_start(s, a);
            let start = new_start(s);
            let behind = start + 4 + text::trim(title).len();
            &&& is_edit(s, changed, p, a, s.len() as int)
            &&& is_line_break(changed, start)
            &&& edge(changed, p, a) <= start < changed.len()
            &&& all_in(s.subrange(a, s.len() as int), CharClass::LineEnd)
            &&& all_in(changed.subrange(a, start), CharClass::LineEnd)
            &&& text::line_end(changed, start) == behind
            &&& behind <= changed.len()
            &&& line_core(changed, start) == "## "@ + text::trim(title)
            &&& text::trim_both(
                changed.subrange(behind, changed.len() as int),
                CharClass::LineEnd,
            ) == if text::is_blank(content) {
                Seq::empty()
            } else {
                text::trim_both(content, CharClass::LineEnd)
            }
        }),
{
    let changed = markdown::with_section(s, title, content);
    let base = text::trim_end(s, CharClass::LineEnd);
    let a = base.len() as int;
    let p = text::line_start(s, a);
    let start = new_start(s);
    let t = text::trim(title);
    let n = t.len() as int;
    let none = Seq::<char>::empty();
    reveal_strlit("\n");
    reveal_strlit("\n\n");
    reveal_strlit("## ");
    assert("\n"@ =~= seq!['\n']);
    assert("\n\n"@ =~= seq!['\n', '\n']);
    assert("## "@ =~= seq!['#', '#', ' ']);
    text::lemma_trail_is(s, CharClass::LineEnd);
    assert(base =~= s.take(a));
    let gap = if a == 0 {
        none
    } else {
        "\n\n"@
    };
    let inner = if text::is_blank(content) {
        none
    } else {
        "\n\n"@ + text::trim_both(content, CharClass::LineEnd)
    };
    assert(changed == base + gap + "## "@ + t + inner + "\n"@);
    assert(changed.take(a) =~= s.take(a));
    assert(changed.skip(changed.len() as int) =~= s.skip(s.len() as int));
    assert(changed.subrange(a, start) =~= gap);
    assert forall|k: int| 0 <= k < s.subrange(a, s.len() as int).len() implies text::in_class(
        CharClass::LineEnd,
        #[trigger] s.subrange(a, s.len() as int)[k],
    ) by {
        assert(s.subrange(a, s.len() as int)[k] == s[a + k]);
    }
    lemma_last_line(s, a, s.len() as int);
    if a > 0 {
        assert(changed[a] == gap[0]);
        assert(changed[a + 1] == gap[1]);
        lemma_followed(s, changed, a);
        let e = text::line_end(s, p);
        assert forall|k: int| 0 <= k < s.subrange(a, e).len() implies text::in_class(
            CharClass::LineEnd,
            #[trigger] s.subrange(a, e)[k],
        ) by {
            assert(s.subrange(a, e)[k] == s[a + k]);
        }
        assert forall|k: int| 0 <= k < changed.subrange(a, a + 1).len() implies text::in_class(
            CharClass::LineEnd,
            #[trigger] changed.subrange(a, a + 1)[k],
        ) by {
            assert(changed.subrange(a, a + 1)[k] == changed[a]);
        }
    }
    lemma_title_line(title);
    let line = "## "@ + t;
    assert(changed.subrange(start, start + 3 + n) =~= line);
    assert forall|k: int| start <= k < start + 3 + n implies #[trigger] changed[k] != '\n' by {
        assert(changed[k] == line[k - start]);
        if k >= start + 3 {
            assert(line[k - start] == t[k - start - 3]);
        }
    }
    assert(changed[start + 3 + n] == '\n') by {
        if inner.len() > 0 {
            assert(changed[start + 3 + n] == inner[0]);
        }
    }
    text::lemma_next_index(changed, '\n', start, start + 3 + n);
    let behind = start + 4 + n;
    assert(changed.subrange(start, behind) =~= line + seq!['\n']);
    lemma_trim_behind(line, seq!['\n'], CharClass::LineEnd);
    text::lemma_trail(line, CharClass::LineEnd, 0);
    assert(text::trim_end(line, CharClass::LineEnd) =~= line);
    let held = changed.subrange(behind, changed.len() as int);
    if text::is_blank(content) {
        assert(held =~= none);
        assert(text::trim_both(none, CharClass::LineEnd) =~= none);
    } else {
        let c = text::trim_both(content, CharClass::LineEnd);
        assert(held =~= seq!['\n'] + c + seq!['\n']);
        lemma_trim_around(seq!['\n'], c, seq!['\n'], CharClass::LineEnd);
        lemma_trim_again(content, CharClass::LineEnd);
    }
}

/// A checked title without its surrounding white space is one line of text.
proof fn lemma_title_line(title: Seq<char>)
    requires
        markdown::title_check(title) is Ok,
    ensures
        ({
            let t = text::trim(title);
            &&& t.len() > 0
            &&& forall|k: int| 0 <= k < t.len() ==> #[trigger] t[k] != '\n'
            &&& !text::in_class(CharClass::LineEnd, t.last())
        }),
{
    let first = text::trim_start(title, CharClass::Space);
    let lead = text::lead(title, CharClass::Space) as int;
    let t = text::trim(title);
    text::lemma_lead_is(title, CharClass::Space);
    text::lemma_trail_is(first, CharClass::Space);
    let k = choose|k: int| 0 <= k < title.len() && !text::is_space(#[trigger] title[k]);
    assert(lead <= k);
    assert(first[k - lead] == title[k]);
    assert(t.len() > k - lead) by {
        if t.len() <= k - lead {
            assert(text::in_class(CharClass::Space, first[k - lead]));
        }
    }
    assert forall|x: int| 0 <= x < t.len() implies #[trigger] t[x] != '\n' by {
        assert(t[x] == title[lead + x]);
        if t[x] == '\n' {
            assert(title.contains('\n'));
        }
    }
    assert(t.last() == first[first.len() - text::trail(first, CharClass::Space) - 1]);
    assert(!text::is_space(t.last()));
}

/// The headings of a body with a new section: those of the body, the new one, and those in its content.
pub proof fn lemma_added(s: Seq<char>, title: Seq<char>, content: Seq<char>)
    requires
        s.len() <= usize::MAX,
        markdown::title_check(title) is Ok,
        can_add(s, title, content),
    ensures
        ({
            let changed = markdown::with_section(s, title, content);
            let a = text::trim_end(s, CharClass::LineEnd).len() as int;
            let p = text::line_start(s, a);
            let b = s.len() as int;
            let behind = new_start(s) + 4 + text::trim(title).len();
            let h = properties::headings_in(s);
            let g = properties::headings_in(changed);
            let inner = headings_between(
                changed,
                markdown::marks(changed).headings,
                behind,
                changed.len() as int,
            );
            &&& read_around(s, changed, a, b)
            &&& h == first_part(s, p, a)
            &&& last_part(s, b).len() == 0 && mid_part(s, p, a, b).len() == 0
            &&& g == first_part(changed, p, a) + seq![new_heading(s, title)] + inner
            &&& first_part(changed, p, a).len() == h.len()
            &&& forall|k: int| 0 <= k < inner.len() ==> (#[trigger] inner[k]).level > 2
        }),
{
    let changed = markdown::with_section(s, title, content);
    let a = text::trim_end(s, CharClass::LineEnd).len() as int;
    let p = text::line_start(s, a);
    let b = s.len() as int;
    let len = changed.len() as int;
    let start = new_start(s);
    let t = text::trim(title);
    let behind = start + 4 + t.len();
    let spans = markdown::marks(s).headings;
    let others = markdown::marks(changed).headings;
    lemma_adding(s, title, content);
    lemma_edit(s, changed, p, a, b);
    let e = edge(s, p, a);
    let f = edge(changed, p, a);
    assert forall|k: int| 0 <= k < s.subrange(e, b).len() implies text::in_class(
        CharClass::LineEnd,
        #[trigger] s.subrange(e, b)[k],
    ) by {
        assert(s.subrange(e, b)[k] == s.subrange(a, b)[e - a + k]);
    }
    assert forall|k: int| 0 <= k < changed.subrange(f, start).len() implies text::in_class(
        CharClass::LineEnd,
        #[trigger] changed.subrange(f, start)[k],
    ) by {
        assert(changed.subrange(f, start)[k] == changed.subrange(a, start)[f - a + k]);
    }
    lemma_no_headings(s, spans, e, b);
    lemma_no_headings(changed, others, f, start);
    lemma_split(changed, others, f, start, len);
    lemma_new_heading(s, title, content);
    let heading = new_heading(s, title);
    let inner = headings_between(changed, others, behind, len);
    assert(last_part(s, b) =~= Seq::<HeadingView>::empty());
    assert(all_moved(last_part(s, b), changed.len() - s.len()) =~= Seq::<HeadingView>::empty());
    let again = first_part(changed, p, a);
    let none = Seq::<HeadingView>::empty();
    assert(mid_part(changed, p, a, len) == none + (seq![heading] + inner));
    assert(again + (none + (seq![heading] + inner)) + none =~= again + seq![heading] + inner);
    assert(first_part(s, p, a) + none + none =~= first_part(s, p, a));
}

/// The heading of a new section.
pub open spec fn new_heading(s: Seq<char>, title: Seq<char>) -> HeadingView {
    HeadingView {
        title: text::trim(title),
        level: 2,
        start: new_start(s) as usize,
        content_start: (new_start(s) + 4 + text::trim(title).len()) as usize,
    }
}

/// A new section begins with its heading.
proof fn lemma_new_heading(s: Seq<char>, title: Seq<char>, content: Seq<char>)
    requires
        s.len() <= usize::MAX,
        markdown::title_check(title) is Ok,
        can_add(s, title, content),
    ensures
        ({
            let changed = markdown::with_section(s, title, content);
            let others = markdown::marks(changed).headings;
            let len = changed.len() as int;
            let start = new_start(s);
            let inner = headings_between(
                changed,
                others,
                start + 4 + text::trim(title).len(),
                len,
            );
            &&& headings_between(changed, others, start, len) == seq![new_heading(s, title)] + inner
            &&& forall|k: int| 0 <= k < inner.len() ==> (#[trigger] inner[k]).level > 2
        }),
{
    let changed = markdown::with_section(s, title, content);
    let len = changed.len() as int;
    let start = new_start(s);
    let t = text::trim(title);
    let behind = start + 4 + t.len();
    let others = markdown::marks(changed).headings;
    lemma_adding(s, title, content);
    lemma_core_heading(changed, start);
    reveal_strlit("## ");
    let line = "## "@ + t;
    assert(line[0] == '#');
    text::lemma_lead(line, CharClass::Space, 0);
    assert(text::trim_start(line, CharClass::Space) =~= line);
    assert(markdown::line_heading(changed, others, start) == Some(new_heading(s, title)));
    let inner = headings_between(changed, others, behind, len);
    text::lemma_line_end(changed, start);
    lemma_between(changed, others, behind, len);
    assert forall|k: int| 0 <= k < inner.len() implies (#[trigger] inner[k]).level > 2 by {
        assert(is_heading_of(changed, others, behind, len, inner[k]));
    }
}

/// A section that is set where there was none is read back: it has the content that it was given,
/// without the line endings around it.
pub proof fn a_new_section_is_read_back(s: Seq<char>, title: Seq<char>, content: Seq<char>)
    requires
        s.len() <= usize::MAX,
        outline::only_titled(markdown::sections_in(s), text::trim(title)) == Ok::<
            Option<int>,
            nat,
        >(None),
        can_add(s, title, content),
        untitled_between(
            markdown::with_section(s, title, content),
            new_start(s) + 1,
            markdown::with_section(s, title, content).len() as int,
            text::trim(title),
        ),
    ensures
        markdown::section_set(s, title, content) matches Ok(changed) ==> markdown::content_named(
            changed,
            title,
        ) == Ok::<Option<Seq<char>>, Failure>(
            Some(
                if text::is_blank(content) {
                    Seq::empty()
                } else {
                    text::trim_both(content, CharClass::LineEnd)
                },
            ),
        ),
{
    if markdown::section_set(s, title, content) is Ok {
        let changed = markdown::with_section(s, title, content);
        let n = markdown::sections_in(s).len() as int;
        lemma_new_region(s, title, content);
        lemma_new_title(s, title, content);
        lemma_only_titled(markdown::sections_in(changed), text::trim(title), n);
    }
}

/// The new section is the one behind those of the body.
proof fn lemma_new_region(s: Seq<char>, title: Seq<char>, content: Seq<char>)
    requires
        s.len() <= usize::MAX,
        markdown::title_check(title) is Ok,
        can_add(s, title, content),
    ensures
        ({
            let changed = markdown::with_section(s, title, content);
            let n = markdown::sections_in(s).len() as int;
            let section = markdown::sections_in(changed)[n];
            &&& n < markdown::sections_in(changed).len()
            &&& section.title == text::trim(title)
            &&& section.level == 2
            &&& markdown::content_of(changed, section) == if text::is_blank(content) {
                Seq::empty()
            } else {
                text::trim_both(content, CharClass::LineEnd)
            }
        }),
{
    let changed = markdown::with_section(s, title, content);
    let behind = new_start(s) + 4 + text::trim(title).len();
    lemma_adding(s, title, content);
    lemma_added(s, title, content);
    let n = properties::headings_in(s).len() as int;
    let g = properties::headings_in(changed);
    let inner = headings_between(
        changed,
        markdown::marks(changed).headings,
        behind,
        changed.len() as int,
    );
    assert forall|k: int| n + 1 <= k < g.len() implies (#[trigger] g[k]).level > 2 by {
        assert(g[k] == inner[k - n - 1]);
    }
    assert(g[n] == new_heading(s, title));
    lemma_peer(g, n + 1, 2, changed.len() as usize, g.len() as int);
}

/// No section but the new one has its title.
proof fn lemma_new_title(s: Seq<char>, title: Seq<char>, content: Seq<char>)
    requires
        s.len() <= usize::MAX,
        markdown::title_check(title) is Ok,
        can_add(s, title, content),
        outline::only_titled(markdown::sections_in(s), text::trim(title)) == Ok::<
            Option<int>,
            nat,
        >(None),
        untitled_between(
            markdown::with_section(s, title, content),
            new_start(s) + 1,
            markdown::with_section(s, title, content).len() as int,
            text::trim(title),
        ),
    ensures
        ({
            let changed = markdown::with_section(s, title, content);
            let n = markdown::sections_in(s).len() as int;
            forall|k: int|
                0 <= k < markdown::sections_in(changed).len() && k != n ==> !outline::titled(
                    #[trigger] markdown::sections_in(changed)[k],
                    text::trim(title),
                )
        }),
{
    let t = text::trim(title);
    let changed = markdown::with_section(s, title, content);
    let others = markdown::marks(changed).headings;
    let a = text::trim_end(s, CharClass::LineEnd).len() as int;
    let p = text::line_start(s, a);
    let len = changed.len() as int;
    let behind = new_start(s) + 4 + t.len();
    lemma_adding(s, title, content);
    lemma_added(s, title, content);
    lemma_edit(s, changed, p, a, s.len() as int);
    lemma_titled(markdown::sections_in(s), t);
    let n = properties::headings_in(s).len() as int;
    let g = properties::headings_in(changed);
    let again = first_part(changed, p, a);
    let inner = headings_between(changed, others, behind, len);
    text::lemma_line_end(changed, new_start(s));
    lemma_between(changed, others, behind, len);
    assert forall|k: int|
        0 <= k < markdown::sections_in(changed).len() && k != n implies !outline::titled(
        #[trigger] markdown::sections_in(changed)[k],
        t,
    ) by {
        if k < n {
            assert(g[k] == again[k]);
            assert(is_kept(first_part(s, p, a)[k], again[k]));
            assert(!outline::titled(markdown::sections_in(s)[k], t));
        } else {
            assert(g[k] == inner[k - n - 1]);
            assert(is_heading_of(changed, others, behind, len, inner[k - n - 1]));
        }
    }
}

/// Adding a section at the end keeps the others, but for those of the first level, which the new one is
/// part of where they reach to the end: each has its title, level and content at its place in the list.
/// Where it is the only one with its title, it is read as before by that title.
pub proof fn adding_a_section_keeps_the_others(
    s: Seq<char>,
    title: Seq<char>,
    content: Seq<char>,
    j: int,
)
    requires
        s.len() <= usize::MAX,
        markdown::title_check(title) is Ok,
        can_add(s, title, content),
        0 <= j < markdown::sections_in(s).len(),
        markdown::sections_in(s)[j].level >= 2 || markdown::sections_in(s)[j].end < s.len(),
    ensures
        ({
            let changed = markdown::with_section(s, title, content);
            &&& j < markdown::sections_in(changed).len()
            &&& same_section(
                s,
                markdown::sections_in(s)[j],
                changed,
                markdown::sections_in(changed)[j],
            )
            &&& forall|other: Seq<char>|
                outline::only_titled(markdown::sections_in(s), text::trim(other)) == Ok::<
                    Option<int>,
                    nat,
                >(Some(j)) && untitled_between(
                    changed,
                    new_start(s),
                    changed.len() as int,
                    text::trim(other),
                ) ==> #[trigger] markdown::content_named(changed, other)
                    == markdown::content_named(s, other)
        }),
{
    let changed = markdown::with_section(s, title, content);
    let a = text::trim_end(s, CharClass::LineEnd).len() as int;
    let p = text::line_start(s, a);
    let b = s.len() as int;
    let start = new_start(s);
    let h = properties::headings_in(s);
    let g = properties::headings_in(changed);
    lemma_adding(s, title, content);
    lemma_added(s, title, content);
    lemma_edit(s, changed, p, a, b);
    let level = h[j].level;
    let m = find_peer(h, j + 1, level);
    let n = h.len() as int;
    if m < n {
        lemma_before(s, changed, p, a, b, j, m);
    } else {
        let first = first_part(s, p, a);
        let again = first_part(changed, p, a);
        lemma_peer(h, j + 1, level, s.len() as usize, m);
        assert(g[j] == again[j]);
        assert(is_kept(first[j], again[j]));
        assert forall|x: int| j + 1 <= x < n implies (#[trigger] g[x]).level > level by {
            assert(g[x] == again[x]);
            assert(is_kept(first[x], again[x]));
        }
        assert(g[n].start == start);
        lemma_peer(g, j + 1, level, changed.len() as usize, n);
        lemma_up_to(s, changed, p, a, b, j);
    }
    assert forall|other: Seq<char>|
        outline::only_titled(markdown::sections_in(s), text::trim(other)) == Ok::<
            Option<int>,
            nat,
        >(Some(j)) && untitled_between(
            changed,
            start,
            changed.len() as int,
            text::trim(other),
        ) implies #[trigger] markdown::content_named(changed, other) == markdown::content_named(
        s,
        other,
    ) by {
        let t = text::trim(other);
        lemma_blank_lines(changed, edge(changed, p, a), start, t, a);
        assert(untitled_between(changed, edge(changed, p, a), changed.len() as int, t));
        lemma_named(s, changed, p, a, b, other, j, j);
    }
}

/// A paragraph for a section that there is not makes the section, and is read back as its content.
pub proof fn an_extension_makes_a_section(s: Seq<char>, title: Seq<char>, content: Seq<char>)
    requires
        s.len() <= usize::MAX,
        !text::is_blank(content),
        outline::only_titled(markdown::sections_in(s), text::trim(title)) == Ok::<
            Option<int>,
            nat,
        >(None),
        ({
            let added = text::trim_both(content, CharClass::LineEnd);
            let changed = markdown::with_section(s, title, added);
            &&& can_add(s, title, added)
            &&& untitled_between(
                changed,
                new_start(s) + 1,
                changed.len() as int,
                text::trim(title),
            )
        }),
    ensures
        markdown::section_extended(s, title, content) matches Ok(changed)
            ==> markdown::content_named(changed, title) == Ok::<Option<Seq<char>>, Failure>(
            Some(text::trim_both(content, CharClass::LineEnd)),
        ),
{
    let added = text::trim_both(content, CharClass::LineEnd);
    a_new_section_is_read_back(s, title, added);
    lemma_not_blank(content);
    lemma_trim_again(content, CharClass::LineEnd);
}

} // verus!
