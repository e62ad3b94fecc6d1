//! What the readings of texts mean, character by character.

use crate::text;
use crate::text::CharClass;
use vstd::prelude::*;

verus! {

/// Whether two characters are one, but for the case of an ASCII letter.
pub open spec fn same_letter(a: char, b: char) -> bool {
    ||| a == b
    ||| 'A' <= a <= 'Z' && b as int == a as int + 32
    ||| 'A' <= b <= 'Z' && a as int == b as int + 32
}

/// Whether two texts are one, but for the case of ASCII letters.
pub open spec fn same_letters(a: Seq<char>, b: Seq<char>) -> bool {
    a.len() == b.len() && forall|i: int| 0 <= i < a.len() ==> same_letter(#[trigger] a[i], b[i])
}

/// Whether a character ends a line.
pub open spec fn is_line_end(c: char) -> bool {
    c == '\r' || c == '\n'
}

/// Whether a text is what stands from one index of another text to a second one, and all around it is
/// dropped: what is dropped before and behind is of a kind, and the text begins and ends with none.
pub open spec fn strips_to(
    s: Seq<char>,
    t: Seq<char>,
    drop: spec_fn(char) -> bool,
    from: int,
    to: int,
) -> bool {
    &&& 0 <= from <= to <= s.len()
    &&& t == s.subrange(from, to)
    &&& forall|i: int| 0 <= i < from ==> drop(#[trigger] s[i])
    &&& forall|i: int| to <= i < s.len() ==> drop(#[trigger] s[i])
    &&& from < to ==> !drop(s[from]) && !drop(s[to - 1])
}

/// Whether a text is another one without the characters of a kind at its two ends.
pub open spec fn strips(s: Seq<char>, t: Seq<char>, drop: spec_fn(char) -> bool) -> bool {
    exists|from: int, to: int| strips_to(s, t, drop, from, to)
}

/// Whether a text is another one without the line endings at its two ends.
pub open spec fn strips_lines(s: Seq<char>, t: Seq<char>) -> bool {
    strips(s, t, |c: char| is_line_end(c))
}

/// Whether a text is another one without the white space at its two ends.
pub open spec fn strips_space(s: Seq<char>, t: Seq<char>) -> bool {
    strips(s, t, |c: char| text::is_space(c))
}

proof fn lemma_lower(a: char, b: char)
    ensures
        text::lower(a) == text::lower(b) <==> same_letter(a, b),
{
}

/// Names are compared letter by letter, whatever the case of ASCII letters.
pub proof fn alike_is_same_letters(a: Seq<char>, b: Seq<char>)
    ensures
        text::alike(a, b) <==> same_letters(a, b),
{
    let f = text::fold(a);
    let g = text::fold(b);
    if f == g {
        assert(f.len() == g.len());
        assert forall|i: int| 0 <= i < a.len() implies same_letter(#[trigger] a[i], b[i]) by {
            assert(f[i] == g[i]);
            lemma_lower(a[i], b[i]);
        }
    }
    if same_letters(a, b) {
        assert forall|i: int| 0 <= i < a.len() implies #[trigger] f[i] == g[i] by {
            assert(same_letter(a[i], b[i]));
            lemma_lower(a[i], b[i]);
        }
        assert(f =~= g);
    }
}

/// A text in capital letters differs from the text in the case of letters alone, and has no small ASCII
/// letter.
pub proof fn raised_letters_are_capital(s: Seq<char>)
    ensures
        same_letters(s, text::raise(s)),
        forall|i: int| 0 <= i < s.len() ==> !('a' <= #[trigger] text::raise(s)[i] <= 'z'),
{
}

proof fn lemma_strips(s: Seq<char>, class: CharClass, drop: spec_fn(char) -> bool)
    requires
        forall|c: char| #[trigger] drop(c) == text::in_class(class, c),
    ensures
        strips(s, text::trim_both(s, class), drop),
{
    let first = text::trim_start(s, class);
    let from = text::lead(s, class) as int;
    text::lemma_lead_is(s, class);
    text::lemma_trail_is(first, class);
    let to = from + (first.len() - text::trail(first, class));
    let t = text::trim_both(s, class);
    assert(t =~= s.subrange(from, to));
    assert forall|i: int| to <= i < s.len() implies drop(#[trigger] s[i]) by {
        assert(first[i - from] == s[i]);
    }
    if from < to {
        assert(first[0] == s[from]);
        assert(first[to - 1 - from] == s[to - 1]);
    }
    assert(strips_to(s, t, drop, from, to));
}

/// Trimming takes off what stands at the two ends, and nothing else.
pub proof fn trimming_strips(s: Seq<char>)
    ensures
        strips_lines(s, text::trim_both(s, CharClass::LineEnd)),
        strips_space(s, text::trim(s)),
{
    lemma_strips(s, CharClass::LineEnd, |c: char| is_line_end(c));
    lemma_strips(s, CharClass::Space, |c: char| text::is_space(c));
}

/// A text that neither begins nor ends with what is dropped is kept as it is.
pub proof fn bare_texts_are_kept(s: Seq<char>, t: Seq<char>, drop: spec_fn(char) -> bool)
    requires
        strips(s, t, drop),
        s.len() > 0 ==> !drop(s[0]) && !drop(s.last()),
    ensures
        t == s,
{
    let (from, to) = choose|from: int, to: int| strips_to(s, t, drop, from, to);
    if from > 0 {
        assert(drop(s[0]));
    }
    if to < s.len() {
        assert(drop(s[s.len() - 1]));
    }
    assert(s.subrange(0, s.len() as int) =~= s);
}

/// What is left of a text is one: it does not depend on where it is sought.
pub proof fn strips_to_one(s: Seq<char>, t: Seq<char>, u: Seq<char>, drop: spec_fn(char) -> bool)
    requires
        strips(s, t, drop),
        strips(s, u, drop),
    ensures
        t == u,
{
    let (a, b) = choose|from: int, to: int| strips_to(s, t, drop, from, to);
    let (c, d) = choose|from: int, to: int| strips_to(s, u, drop, from, to);
    if a < b && c < d {
        if a < c {
            assert(drop(s[a]));
        }
        if c < a {
            assert(drop(s[c]));
        }
        if b < d {
            assert(drop(s[d - 1]));
        }
        if d < b {
            assert(drop(s[b - 1]));
        }
    } else if a < b {
        if a < c {
            assert(drop(s[a]));
        } else {
            assert(drop(s[a]));
        }
    } else if c < d {
        assert(drop(s[c]));
    } else {
        assert(t =~= u);
    }
}

/// A text comes before another one where the first character in which they differ is the smaller one, or
/// where it is the beginning of a longer one.
pub proof fn texts_are_ordered_by_characters(a: Seq<char>, b: Seq<char>, k: int)
    requires
        0 <= k <= a.len(),
        k <= b.len(),
        forall|i: int| 0 <= i < k ==> a[i] == b[i],
        k < a.len() && k < b.len() ==> a[k] != b[k],
    ensures
        text::precedes(a, b) == (k < b.len() && (k == a.len() || a[k] < b[k])),
    decreases k,
{
    if k > 0 {
        assert(a[0] == b[0]);
        let x = a.drop_first();
        let y = b.drop_first();
        assert forall|i: int| 0 <= i < k - 1 implies x[i] == y[i] by {
            assert(x[i] == a[i + 1] && y[i] == b[i + 1]);
        }
        texts_are_ordered_by_characters(x, y, k - 1);
    }
}

} // verus!
