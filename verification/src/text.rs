//! Text as a sequence of characters: classes, trimming, searching and lines.
//!
//! Everything in the crate that looks inside a text works on its characters. Byte offsets appear
//! only where a caller or the Markdown parser speaks of them (see the `source` module).

use vstd::prelude::*;
use vstd::slice::slice_subrange;

verus! {

/// The sets of characters that the library trims, counts or looks for.
#[derive(Clone, Copy, Debug, PartialEq, Eq, Structural)]
pub enum CharClass {
    /// Unicode white space.
    Space,
    /// Carriage return and line feed.
    LineEnd,
    /// Carriage return.
    Return,
    /// Space and horizontal tab.
    Blank,
    /// The number sign.
    Hash,
    /// An ASCII digit.
    Digit,
}

/// The characters with the Unicode `White_Space` property.
pub open spec fn is_space(c: char) -> bool {
    ||| '\u{9}' <= c <= '\u{d}'
    ||| c == ' '
    ||| c == '\u{85}'
    ||| c == '\u{a0}'
    ||| c == '\u{1680}'
    ||| '\u{2000}' <= c <= '\u{200a}'
    ||| c == '\u{2028}'
    ||| c == '\u{2029}'
    ||| c == '\u{202f}'
    ||| c == '\u{205f}'
    ||| c == '\u{3000}'
}

/// The characters of the Unicode general category `Cc`.
pub open spec fn is_control(c: char) -> bool {
    c <= '\u{1f}' || '\u{7f}' <= c <= '\u{9f}'
}

/// Whether a character belongs to a class.
pub open spec fn in_class(class: CharClass, c: char) -> bool {
    match class {
        CharClass::Space => is_space(c),
        CharClass::LineEnd => c == '\r' || c == '\n',
        CharClass::Return => c == '\r',
        CharClass::Blank => c == ' ' || c == '\t',
        CharClass::Hash => c == '#',
        CharClass::Digit => '0' <= c <= '9',
    }
}

/// How many characters at the start of a text belong to a class.
pub open spec fn lead(s: Seq<char>, class: CharClass) -> nat
    decreases s.len(),
{
    if s.len() > 0 && in_class(class, s[0]) {
        1 + lead(s.drop_first(), class)
    } else {
        0
    }
}

/// How many characters at the end of a text belong to a class.
pub open spec fn trail(s: Seq<char>, class: CharClass) -> nat
    decreases s.len(),
{
    if s.len() > 0 && in_class(class, s.last()) {
        1 + trail(s.drop_last(), class)
    } else {
        0
    }
}

/// A text without its leading characters of a class.
pub open spec fn trim_start(s: Seq<char>, class: CharClass) -> Seq<char> {
    s.skip(lead(s, class) as int)
}

/// A text without its trailing characters of a class.
pub open spec fn trim_end(s: Seq<char>, class: CharClass) -> Seq<char> {
    s.take(s.len() - trail(s, class))
}

/// A text without its leading and trailing characters of a class.
pub open spec fn trim_both(s: Seq<char>, class: CharClass) -> Seq<char> {
    trim_end(trim_start(s, class), class)
}

/// A text without its surrounding white space.
pub open spec fn trim(s: Seq<char>) -> Seq<char> {
    trim_both(s, CharClass::Space)
}

/// Whether a text has nothing but white space in it.
pub open spec fn is_blank(s: Seq<char>) -> bool {
    forall|i: int| 0 <= i < s.len() ==> is_space(#[trigger] s[i])
}

/// Whether a text has a control character in it.
pub open spec fn has_control(s: Seq<char>) -> bool {
    exists|i: int| 0 <= i < s.len() && is_control(#[trigger] s[i])
}

/// A character with an ASCII capital letter made small.
pub open spec fn lower(c: char) -> char {
    if 'A' <= c <= 'Z' {
        (c as u32 + 32) as char
    } else {
        c
    }
}

/// A character with an ASCII small letter made capital.
pub open spec fn upper(c: char) -> char {
    if 'a' <= c <= 'z' {
        (c as u32 - 32) as char
    } else {
        c
    }
}

/// A text with its ASCII capital letters made small.
pub open spec fn fold(s: Seq<char>) -> Seq<char> {
    Seq::new(s.len(), |i: int| lower(s[i]))
}

/// A text with its ASCII small letters made capital.
pub open spec fn raise(s: Seq<char>) -> Seq<char> {
    Seq::new(s.len(), |i: int| upper(s[i]))
}

/// Whether two texts differ at most in the case of ASCII letters.
pub open spec fn alike(a: Seq<char>, b: Seq<char>) -> bool {
    fold(a) == fold(b)
}

/// Whether `part` stands in `s` at index `i`.
pub open spec fn occurs_at(s: Seq<char>, part: Seq<char>, i: int) -> bool {
    0 <= i && i + part.len() <= s.len() && s.subrange(i, i + part.len()) == part
}

/// Whether `part` stands somewhere in `s`.
pub open spec fn occurs(s: Seq<char>, part: Seq<char>) -> bool {
    exists|i: int| occurs_at(s, part, i)
}

/// Whether `s` begins with `part`.
pub open spec fn begins(s: Seq<char>, part: Seq<char>) -> bool {
    occurs_at(s, part, 0)
}

/// Whether `s` ends with `part`.
pub open spec fn finishes(s: Seq<char>, part: Seq<char>) -> bool {
    occurs_at(s, part, s.len() - part.len())
}

/// The index of the first occurrence of a character at or after `from`, or the length of the text.
pub open spec fn next_index(s: Seq<char>, c: char, from: int) -> int
    decreases s.len() - from,
{
    if from < 0 || from >= s.len() {
        s.len() as int
    } else if s[from] == c {
        from
    } else {
        next_index(s, c, from + 1)
    }
}

/// The index just behind the line that holds index `from`: its line feed belongs to it.
pub open spec fn line_end(s: Seq<char>, from: int) -> int {
    let feed = next_index(s, '\n', from);
    if feed < s.len() {
        feed + 1
    } else {
        s.len() as int
    }
}

/// The index at which the line that holds index `at` begins.
pub open spec fn line_start(s: Seq<char>, at: int) -> int
    decreases at,
{
    if at <= 0 {
        0
    } else if at <= s.len() && s[at - 1] == '\n' {
        at
    } else {
        line_start(s, at - 1)
    }
}

/// A line without its terminating line feed, or carriage return and line feed.
pub open spec fn line_text(line: Seq<char>) -> Seq<char> {
    if finishes(line, seq!['\r', '\n']) {
        line.take(line.len() - 2)
    } else if finishes(line, seq!['\n']) {
        line.take(line.len() - 1)
    } else {
        line
    }
}

/// The decimal digits of a number.
pub open spec fn decimal(n: nat) -> Seq<char>
    decreases n,
{
    if n < 10 {
        seq![('0' as u32 + n) as char]
    } else {
        decimal(n / 10).push(('0' as u32 + n % 10) as char)
    }
}

/// The number that a run of decimal digits stands for.
pub open spec fn digits_value(s: Seq<char>) -> nat
    decreases s.len(),
{
    if s.len() == 0 {
        0
    } else {
        digits_value(s.drop_last()) * 10 + (s.last() as u32 - '0' as u32) as nat
    }
}

/// Whether a text consists of decimal digits only.
pub open spec fn all_digits(s: Seq<char>) -> bool {
    forall|i: int| 0 <= i < s.len() ==> '0' <= #[trigger] s[i] <= '9'
}

/// The unsigned number of 64 bits that a text stands for: an optional plus sign and digits.
pub open spec fn number(s: Seq<char>) -> Option<u64> {
    let digits = if begins(s, seq!['+']) {
        s.skip(1)
    } else {
        s
    };
    if digits.len() > 0 && all_digits(digits) && digits_value(digits) <= u64::MAX {
        Some(digits_value(digits) as u64)
    } else {
        None
    }
}

/// `lead` is the one count with these two properties.
pub proof fn lemma_lead(s: Seq<char>, class: CharClass, n: int)
    requires
        0 <= n <= s.len(),
        forall|i: int| 0 <= i < n ==> in_class(class, #[trigger] s[i]),
        n < s.len() ==> !in_class(class, s[n]),
    ensures
        lead(s, class) == n,
    decreases s.len(),
{
    if n > 0 {
        assert(in_class(class, s[0]));
        assert forall|i: int| 0 <= i < n - 1 implies in_class(
            class,
            #[trigger] s.drop_first()[i],
        ) by {
            assert(s.drop_first()[i] == s[i + 1]);
        }
        lemma_lead(s.drop_first(), class, n - 1);
    }
}

/// What `lead` says of a text.
pub proof fn lemma_lead_is(s: Seq<char>, class: CharClass)
    ensures
        lead(s, class) <= s.len(),
        forall|i: int| 0 <= i < lead(s, class) ==> in_class(class, #[trigger] s[i]),
        lead(s, class) < s.len() ==> !in_class(class, s[lead(s, class) as int]),
    decreases s.len(),
{
    if s.len() > 0 && in_class(class, s[0]) {
        let rest = s.drop_first();
        lemma_lead_is(rest, class);
        assert forall|i: int| 0 <= i < lead(s, class) implies in_class(class, #[trigger] s[i]) by {
            if i > 0 {
                assert(rest[i - 1] == s[i]);
            }
        }
        if lead(s, class) < s.len() {
            assert(rest[lead(rest, class) as int] == s[lead(s, class) as int]);
        }
    }
}

/// `trail` is the one count with these two properties.
pub proof fn lemma_trail(s: Seq<char>, class: CharClass, n: int)
    requires
        0 <= n <= s.len(),
        forall|i: int| s.len() - n <= i < s.len() ==> in_class(class, #[trigger] s[i]),
        n < s.len() ==> !in_class(class, s[s.len() - n - 1]),
    ensures
        trail(s, class) == n,
    decreases s.len(),
{
    if n > 0 {
        assert(in_class(class, s[s.len() - 1]));
        let rest = s.drop_last();
        assert forall|i: int| rest.len() - (n - 1) <= i < rest.len() implies in_class(
            class,
            #[trigger] rest[i],
        ) by {
            assert(rest[i] == s[i]);
        }
        lemma_trail(rest, class, n - 1);
    }
}

/// What `trail` says of a text.
pub proof fn lemma_trail_is(s: Seq<char>, class: CharClass)
    ensures
        trail(s, class) <= s.len(),
        forall|i: int| s.len() - trail(s, class) <= i < s.len() ==> in_class(class, #[trigger] s[i]),
        trail(s, class) < s.len() ==> !in_class(class, s[s.len() - trail(s, class) - 1]),
    decreases s.len(),
{
    if s.len() > 0 && in_class(class, s.last()) {
        let rest = s.drop_last();
        lemma_trail_is(rest, class);
        assert forall|i: int| s.len() - trail(s, class) <= i < s.len() implies in_class(
            class,
            #[trigger] s[i],
        ) by {
            if i < s.len() - 1 {
                assert(rest[i] == s[i]);
            }
        }
        if trail(s, class) < s.len() {
            assert(rest[rest.len() - trail(rest, class) - 1] == s[s.len() - trail(s, class) - 1]);
        }
    }
}

/// Whether a character belongs to a class.
pub fn has_class(class: CharClass, c: char) -> (r: bool)
    ensures
        r == in_class(class, c),
{
    match class {
        CharClass::Space => ('\u{9}' <= c && c <= '\u{d}') || c == ' ' || c == '\u{85}' || c
            == '\u{a0}' || c == '\u{1680}' || ('\u{2000}' <= c && c <= '\u{200a}') || c
            == '\u{2028}' || c == '\u{2029}' || c == '\u{202f}' || c == '\u{205f}' || c
            == '\u{3000}',
        CharClass::LineEnd => c == '\r' || c == '\n',
        CharClass::Return => c == '\r',
        CharClass::Blank => c == ' ' || c == '\t',
        CharClass::Hash => c == '#',
        CharClass::Digit => '0' <= c && c <= '9',
    }
}

/// Counts the leading characters of a class.
pub fn lead_len(s: &[char], class: CharClass) -> (r: usize)
    ensures
        r == lead(s@, class),
        r <= s@.len(),
{
    let mut n: usize = 0;
    while n < s.len() && has_class(class, s[n])
        invariant
            n <= s@.len(),
            forall|i: int| 0 <= i < n ==> in_class(class, #[trigger] s@[i]),
        decreases s@.len() - n,
    {
        n += 1;
    }
    proof {
        lemma_lead(s@, class, n as int);
    }
    n
}

/// Counts the trailing characters of a class.
pub fn trail_len(s: &[char], class: CharClass) -> (r: usize)
    ensures
        r == trail(s@, class),
        r <= s@.len(),
{
    let mut n: usize = 0;
    while n < s.len() && has_class(class, s[s.len() - n - 1])
        invariant
            n <= s@.len(),
            forall|i: int| s@.len() - n <= i < s@.len() ==> in_class(class, #[trigger] s@[i]),
        decreases s@.len() - n,
    {
        n += 1;
    }
    proof {
        lemma_trail(s@, class, n as int);
    }
    n
}

/// Drops the leading characters of a class.
pub fn without_lead<'a>(s: &'a [char], class: CharClass) -> (r: &'a [char])
    ensures
        r@ == trim_start(s@, class),
{
    let n = lead_len(s, class);
    slice_subrange(s, n, s.len())
}

/// Drops the trailing characters of a class.
pub fn without_trail<'a>(s: &'a [char], class: CharClass) -> (r: &'a [char])
    ensures
        r@ == trim_end(s@, class),
{
    let n = trail_len(s, class);
    slice_subrange(s, 0, s.len() - n)
}

/// Drops the leading and trailing characters of a class.
pub fn trimmed<'a>(s: &'a [char], class: CharClass) -> (r: &'a [char])
    ensures
        r@ == trim_both(s@, class),
{
    without_trail(without_lead(s, class), class)
}

/// Whether a text holds nothing but white space.
pub fn blank(s: &[char]) -> (r: bool)
    ensures
        r == is_blank(s@),
{
    let n = lead_len(s, CharClass::Space);
    proof {
        lemma_lead_is(s@, CharClass::Space);
    }
    n == s.len()
}

/// Whether a text holds a control character.
pub fn controlled(s: &[char]) -> (r: bool)
    ensures
        r == has_control(s@),
{
    let mut i: usize = 0;
    while i < s.len()
        invariant
            i <= s@.len(),
            forall|j: int| 0 <= j < i ==> !is_control(#[trigger] s@[j]),
        decreases s@.len() - i,
    {
        let c = s[i];
        if c <= '\u{1f}' || ('\u{7f}' <= c && c <= '\u{9f}') {
            return true;
        }
        i += 1;
    }
    false
}

/// Whether a text holds a character.
pub fn holds_char(s: &[char], c: char) -> (r: bool)
    ensures
        r == s@.contains(c),
{
    let mut i: usize = 0;
    while i < s.len()
        invariant
            i <= s@.len(),
            forall|j: int| 0 <= j < i ==> #[trigger] s@[j] != c,
        decreases s@.len() - i,
    {
        if s[i] == c {
            return true;
        }
        i += 1;
    }
    false
}

/// Whether two texts are the same.
pub fn same(a: &[char], b: &[char]) -> (r: bool)
    ensures
        r == (a@ == b@),
{
    if a.len() != b.len() {
        return false;
    }
    let mut i: usize = 0;
    while i < a.len()
        invariant
            i <= a@.len(),
            a@.len() == b@.len(),
            forall|j: int| 0 <= j < i ==> a@[j] == b@[j],
        decreases a@.len() - i,
    {
        if a[i] != b[i] {
            return false;
        }
        i += 1;
    }
    assert(a@ =~= b@);
    true
}

/// The small form of an ASCII letter.
pub fn lower_char(c: char) -> (r: char)
    ensures
        r == lower(c),
{
    if 'A' <= c && c <= 'Z' {
        ((c as u8) + 32) as char
    } else {
        c
    }
}

/// The capital form of an ASCII letter.
pub fn upper_char(c: char) -> (r: char)
    ensures
        r == upper(c),
{
    if 'a' <= c && c <= 'z' {
        ((c as u8) - 32) as char
    } else {
        c
    }
}

/// Whether two texts differ at most in the case of ASCII letters.
pub fn same_folded(a: &[char], b: &[char]) -> (r: bool)
    ensures
        r == alike(a@, b@),
{
    if a.len() != b.len() {
        assert(fold(a@).len() != fold(b@).len());
        return false;
    }
    let mut i: usize = 0;
    while i < a.len()
        invariant
            i <= a@.len(),
            a@.len() == b@.len(),
            forall|j: int| 0 <= j < i ==> lower(#[trigger] a@[j]) == lower(b@[j]),
        decreases a@.len() - i,
    {
        if lower_char(a[i]) != lower_char(b[i]) {
            assert(fold(a@)[i as int] != fold(b@)[i as int]);
            return false;
        }
        i += 1;
    }
    assert(fold(a@) =~= fold(b@));
    true
}

/// Whether `part` stands in `s` at index `i`.
pub fn stands_at(s: &[char], part: &[char], i: usize) -> (r: bool)
    ensures
        r == occurs_at(s@, part@, i as int),
{
    if i > s.len() || part.len() > s.len() - i {
        return false;
    }
    same(slice_subrange(s, i, i + part.len()), part)
}

/// Whether `part` stands somewhere in `s`.
pub fn stands_in(s: &[char], part: &[char]) -> (r: bool)
    ensures
        r == occurs(s@, part@),
{
    let mut i: usize = 0;
    while i < s.len()
        invariant
            i <= s@.len(),
            forall|j: int| 0 <= j < i ==> !occurs_at(s@, part@, j),
        decreases s@.len() - i,
    {
        if stands_at(s, part, i) {
            return true;
        }
        i += 1;
    }
    if stands_at(s, part, i) {
        return true;
    }
    assert forall|j: int| !occurs_at(s@, part@, j) by {
        if occurs_at(s@, part@, j) {
            assert(0 <= j <= s@.len());
        }
    }
    false
}

/// Whether `s` ends with `part`.
pub fn ends(s: &[char], part: &[char]) -> (r: bool)
    ensures
        r == finishes(s@, part@),
{
    if part.len() > s.len() {
        return false;
    }
    stands_at(s, part, s.len() - part.len())
}

/// What `next_index` says of a text.
pub proof fn lemma_next_index_is(s: Seq<char>, c: char, from: int)
    requires
        0 <= from <= s.len(),
    ensures
        from <= next_index(s, c, from) <= s.len(),
        forall|i: int| from <= i < next_index(s, c, from) ==> #[trigger] s[i] != c,
        next_index(s, c, from) < s.len() ==> s[next_index(s, c, from)] == c,
    decreases s.len() - from,
{
    if from < s.len() && s[from] != c {
        lemma_next_index_is(s, c, from + 1);
    }
}

/// `next_index` is the one index with these properties.
pub proof fn lemma_next_index(s: Seq<char>, c: char, from: int, at: int)
    requires
        0 <= from <= at <= s.len(),
        forall|i: int| from <= i < at ==> #[trigger] s[i] != c,
        at < s.len() ==> s[at] == c,
    ensures
        next_index(s, c, from) == at,
    decreases at - from,
{
    if from < at {
        lemma_next_index(s, c, from + 1, at);
    }
}

/// Finds a character at or after an index.
pub fn find_char(s: &[char], c: char, from: usize) -> (r: usize)
    requires
        from <= s@.len(),
    ensures
        r == next_index(s@, c, from as int),
        from <= r <= s@.len(),
{
    let mut i: usize = from;
    while i < s.len() && s[i] != c
        invariant
            from <= i <= s@.len(),
            forall|j: int| from <= j < i ==> #[trigger] s@[j] != c,
        decreases s@.len() - i,
    {
        i += 1;
    }
    proof {
        lemma_next_index(s@, c, from as int, i as int);
    }
    i
}

/// Bounds of `line_end`.
pub proof fn lemma_line_end(s: Seq<char>, from: int)
    requires
        0 <= from <= s.len(),
    ensures
        from <= line_end(s, from) <= s.len(),
        from < s.len() ==> from < line_end(s, from),
        line_end(s, from) < s.len() ==> line_end(s, from) > from && s[line_end(s, from) - 1] == '\n',
        forall|i: int| from <= i < line_end(s, from) - 1 ==> #[trigger] s[i] != '\n',
{
    lemma_next_index_is(s, '\n', from);
}

/// Finds the end of a line.
pub fn end_of_line(s: &[char], from: usize) -> (r: usize)
    requires
        from <= s@.len(),
    ensures
        r == line_end(s@, from as int),
        from <= r <= s@.len(),
        from < s@.len() ==> from < r,
{
    let feed = find_char(s, '\n', from);
    if feed < s.len() {
        feed + 1
    } else {
        s.len()
    }
}

/// What `line_start` says of a text.
pub proof fn lemma_line_start(s: Seq<char>, at: int)
    requires
        0 <= at <= s.len(),
    ensures
        0 <= line_start(s, at) <= at,
        line_start(s, at) > 0 ==> s[line_start(s, at) - 1] == '\n',
        forall|i: int| line_start(s, at) <= i < at ==> #[trigger] s[i] != '\n',
        line_start(s, line_start(s, at)) == line_start(s, at),
    decreases at,
{
    if at > 0 && s[at - 1] != '\n' {
        lemma_line_start(s, at - 1);
    }
}

/// Finds the start of a line.
pub fn start_of_line(s: &[char], at: usize) -> (r: usize)
    requires
        at <= s@.len(),
    ensures
        r == line_start(s@, at as int),
        r <= at,
{
    let mut i: usize = at;
    while i > 0 && s[i - 1] != '\n'
        invariant
            i <= at <= s@.len(),
            line_start(s@, i as int) == line_start(s@, at as int),
        decreases i,
    {
        i -= 1;
    }
    i
}

/// Drops the line ending of a line.
pub fn text_of_line<'a>(line: &'a [char]) -> (r: &'a [char])
    ensures
        r@ == line_text(line@),
{
    let n = line.len();
    if n >= 1 && line[n - 1] == '\n' {
        assert(line@.subrange(n - 1, n as int) =~= seq!['\n']);
        if n >= 2 && line[n - 2] == '\r' {
            assert(line@.subrange(n - 2, n as int) =~= seq!['\r', '\n']);
            slice_subrange(line, 0, n - 2)
        } else {
            proof {
                if finishes(line@, seq!['\r', '\n']) {
                    assert(line@.subrange(n - 2, n as int)[0] == '\r');
                }
            }
            slice_subrange(line, 0, n - 1)
        }
    } else {
        proof {
            if finishes(line@, seq!['\r', '\n']) {
                assert(line@.subrange(n - 2, n as int)[1] == '\n');
            }
            if finishes(line@, seq!['\n']) {
                assert(line@.subrange(n - 1, n as int)[0] == '\n');
            }
        }
        line
    }
}

/// Appends a text to a buffer.
pub fn push_all(out: &mut Vec<char>, part: &[char])
    ensures
        final(out)@ == old(out)@ + part@,
{
    let mut i: usize = 0;
    while i < part.len()
        invariant
            i <= part@.len(),
            out@ == old(out)@ + part@.take(i as int),
        decreases part@.len() - i,
    {
        out.push(part[i]);
        assert(part@.take(i + 1) =~= part@.take(i as int).push(part@[i as int]));
        i += 1;
    }
    assert(part@.take(part@.len() as int) =~= part@);
}

/// Copies a text.
pub fn copy_of(s: &[char]) -> (r: Vec<char>)
    ensures
        r@ == s@,
{
    let mut out: Vec<char> = Vec::new();
    push_all(&mut out, s);
    out
}

/// The characters of a string.
pub fn chars_of(s: &str) -> (r: Vec<char>)
    ensures
        r@ == s@,
{
    let mut out: Vec<char> = Vec::new();
    for c in it: s.chars()
        invariant
            out@ == s@.take(it.index() as int),
            it.seq() == s@,
    {
        out.push(c);
        assert(s@.take(it.index() + 1) =~= s@.take(it.index() as int).push(c));
    }
    assert(s@.take(s@.len() as int) =~= s@);
    out
}

/// `String::push` appends one character.
pub assume_specification[ String::push ](s: &mut String, c: char)
    ensures
        final(s)@ == old(s)@.push(c),
;

/// The string with the given characters.
pub fn string_of(s: &[char]) -> (r: String)
    ensures
        r@ == s@,
{
    let mut out = String::new();
    let mut i: usize = 0;
    while i < s.len()
        invariant
            i <= s@.len(),
            out@ == s@.take(i as int),
        decreases s@.len() - i,
    {
        out.push(s[i]);
        assert(s@.take(i + 1) =~= s@.take(i as int).push(s@[i as int]));
        i += 1;
    }
    assert(s@.take(s@.len() as int) =~= s@);
    out
}

/// The digit that stands for a number below ten.
fn digit_of(n: u64) -> (r: char)
    requires
        n < 10,
    ensures
        r == ('0' as u32 + n) as char,
{
    let digit: u8 = 48 + n as u8;
    digit as char
}

/// Writes a number in decimal.
pub fn decimal_of(n: u64) -> (r: Vec<char>)
    ensures
        r@ == decimal(n as nat),
    decreases n,
{
    if n < 10 {
        let mut out: Vec<char> = Vec::new();
        out.push(digit_of(n));
        assert(out@ =~= decimal(n as nat));
        out
    } else {
        let mut out = decimal_of(n / 10);
        out.push(digit_of(n % 10));
        out
    }
}

/// The texts of the lines of a text from an index on, without their endings.
pub open spec fn lines_from(s: Seq<char>, at: int) -> Seq<Seq<char>>
    decreases s.len() - at,
{
    if at < 0 || at >= s.len() {
        Seq::empty()
    } else {
        proof {
            lemma_line_end(s, at);
        }
        seq![line_text(s.subrange(at, line_end(s, at)))] + lines_from(s, line_end(s, at))
    }
}

/// The texts of the lines of a text. A text that ends with a line feed has no further line.
pub open spec fn lines(s: Seq<char>) -> Seq<Seq<char>> {
    lines_from(s, 0)
}

/// Texts in a list.
pub open spec fn texts(list: Seq<Vec<char>>) -> Seq<Seq<char>> {
    list.map_values(|t: Vec<char>| t@)
}

/// Splits a text into its lines.
pub fn lines_of(s: &[char]) -> (r: Vec<Vec<char>>)
    ensures
        texts(r@) == lines(s@),
{
    let mut out: Vec<Vec<char>> = Vec::new();
    let mut at: usize = 0;
    assert(texts(out@) + lines_from(s@, 0) =~= lines(s@));
    while at < s.len()
        invariant
            at <= s@.len(),
            texts(out@) + lines_from(s@, at as int) == lines(s@),
        decreases s@.len() - at,
    {
        let end = end_of_line(s, at);
        let line = copy_of(text_of_line(slice_subrange(s, at, end)));
        let ghost before = texts(out@);
        let ghost added = line@;
        out.push(line);
        assert(texts(out@) =~= before.push(added));
        assert(before + lines_from(s@, at as int) =~= before.push(added) + lines_from(
            s@,
            end as int,
        ));
        at = end;
    }
    assert(texts(out@) + lines_from(s@, at as int) =~= texts(out@));
    out
}

/// The first `n` texts of a list with line feeds between them.
pub open spec fn joined(list: Seq<Seq<char>>, n: nat) -> Seq<char>
    decreases n,
{
    if n == 0 || n > list.len() {
        Seq::empty()
    } else if n == 1 {
        list[0]
    } else {
        joined(list, (n - 1) as nat) + seq!['\n'] + list[n - 1]
    }
}

/// Whether a text comes before another one, character by character.
pub open spec fn precedes(a: Seq<char>, b: Seq<char>) -> bool
    decreases a.len(),
{
    if b.len() == 0 {
        false
    } else if a.len() == 0 {
        true
    } else if a[0] != b[0] {
        a[0] < b[0]
    } else {
        precedes(a.drop_first(), b.drop_first())
    }
}

/// No text comes before itself.
pub proof fn lemma_precedes_self(a: Seq<char>)
    ensures
        !precedes(a, a),
    decreases a.len(),
{
    if a.len() > 0 {
        lemma_precedes_self(a.drop_first());
    }
}

/// The order of texts is transitive.
pub proof fn lemma_precedes_transitive(a: Seq<char>, b: Seq<char>, c: Seq<char>)
    requires
        precedes(a, b),
        precedes(b, c),
    ensures
        precedes(a, c),
    decreases a.len(),
{
    if a.len() > 0 && a[0] == b[0] && b[0] == c[0] {
        lemma_precedes_transitive(a.drop_first(), b.drop_first(), c.drop_first());
    }
}

/// Of two different texts one comes before the other.
pub proof fn lemma_precedes_total(a: Seq<char>, b: Seq<char>)
    ensures
        a == b || precedes(a, b) || precedes(b, a),
    decreases a.len(),
{
    if a.len() > 0 && b.len() > 0 && a[0] == b[0] {
        lemma_precedes_total(a.drop_first(), b.drop_first());
        if a.drop_first() == b.drop_first() {
            assert(a =~= seq![a[0]] + a.drop_first());
            assert(b =~= seq![b[0]] + b.drop_first());
        }
    } else if a.len() == 0 && b.len() == 0 {
        assert(a =~= b);
    }
}

/// Whether a text comes before another one.
pub fn comes_before(a: &[char], b: &[char]) -> (r: bool)
    ensures
        r == precedes(a@, b@),
{
    let mut i: usize = 0;
    assert(a@.skip(0) =~= a@);
    assert(b@.skip(0) =~= b@);
    while i < a.len() && i < b.len()
        invariant
            i <= a@.len(),
            i <= b@.len(),
            precedes(a@.skip(i as int), b@.skip(i as int)) == precedes(a@, b@),
        decreases a@.len() - i,
    {
        assert(a@.skip(i as int)[0] == a@[i as int]);
        assert(b@.skip(i as int)[0] == b@[i as int]);
        if a[i] != b[i] {
            return a[i] < b[i];
        }
        assert(a@.skip(i as int).drop_first() =~= a@.skip(i + 1));
        assert(b@.skip(i as int).drop_first() =~= b@.skip(i + 1));
        i += 1;
    }
    i < b.len()
}

/// Strings in a list.
pub open spec fn strings(list: Seq<String>) -> Seq<Seq<char>> {
    list.map_values(|t: String| t@)
}

/// Copies a string.
pub fn copy_string(s: &str) -> (r: String)
    ensures
        r@ == s@,
{
    string_of(&chars_of(s))
}

/// Copies a list of strings.
pub fn copy_strings(list: &Vec<String>) -> (r: Vec<String>)
    ensures
        strings(r@) == strings(list@),
{
    let mut out: Vec<String> = Vec::new();
    let mut i: usize = 0;
    while i < list.len()
        invariant
            i <= list@.len(),
            strings(out@) =~= strings(list@).take(i as int),
        decreases list@.len() - i,
    {
        let copy = copy_string(&list[i]);
        let ghost before = strings(out@);
        let ghost added = copy@;
        out.push(copy);
        assert(strings(out@) =~= before.push(added));
        assert(strings(list@).take(i + 1) =~= strings(list@).take(i as int).push(added));
        i += 1;
    }
    assert(strings(list@).take(i as int) =~= strings(list@));
    out
}

/// Whether two strings are the same.
pub fn same_string(a: &str, b: &str) -> (r: bool)
    ensures
        r == (a@ == b@),
{
    same(&chars_of(a), &chars_of(b))
}

/// Whether two strings differ at most in the case of ASCII letters.
pub fn alike_strings(a: &str, b: &str) -> (r: bool)
    ensures
        r == alike(a@, b@),
{
    same_folded(&chars_of(a), &chars_of(b))
}

/// A string without its surrounding white space.
pub fn trim_string(s: &str) -> (r: String)
    ensures
        r@ == trim(s@),
{
    string_of(trimmed(&chars_of(s), CharClass::Space))
}

/// A string with its ASCII capital letters made small.
pub fn fold_string(s: &str) -> (r: String)
    ensures
        r@ == fold(s@),
{
    let chars = chars_of(s);
    let mut out: Vec<char> = Vec::new();
    let mut i: usize = 0;
    while i < chars.len()
        invariant
            i <= chars@.len(),
            out@ == fold(chars@).take(i as int),
        decreases chars@.len() - i,
    {
        out.push(lower_char(chars[i]));
        assert(out@ =~= fold(chars@).take(i + 1));
        i += 1;
    }
    assert(fold(chars@).take(i as int) =~= fold(chars@));
    string_of(&out)
}

/// A string with its ASCII small letters made capital.
pub fn raise_string(s: &str) -> (r: String)
    ensures
        r@ == raise(s@),
{
    let chars = chars_of(s);
    let mut out: Vec<char> = Vec::new();
    let mut i: usize = 0;
    while i < chars.len()
        invariant
            i <= chars@.len(),
            out@ == raise(chars@).take(i as int),
        decreases chars@.len() - i,
    {
        out.push(upper_char(chars[i]));
        assert(out@ =~= raise(chars@).take(i + 1));
        i += 1;
    }
    assert(raise(chars@).take(i as int) =~= raise(chars@));
    string_of(&out)
}

/// The first `n` texts of a list with a separator between them.
pub open spec fn listed(list: Seq<Seq<char>>, separator: Seq<char>, n: nat) -> Seq<char>
    decreases n,
{
    if n == 0 || n > list.len() {
        Seq::empty()
    } else if n == 1 {
        list[0]
    } else {
        listed(list, separator, (n - 1) as nat) + separator + list[n - 1]
    }
}

/// Writes a list of strings with a separator between them.
pub fn list_strings(list: &Vec<String>, separator: &str) -> (r: String)
    ensures
        r@ == listed(strings(list@), separator@, list@.len()),
{
    let gap = chars_of(separator);
    let ghost views = strings(list@);
    let mut out: Vec<char> = Vec::new();
    let mut i: usize = 0;
    while i < list.len()
        invariant
            i <= list@.len(),
            gap@ == separator@,
            views == strings(list@),
            views.len() == list@.len(),
            out@ == listed(views, separator@, i as nat),
        decreases list@.len() - i,
    {
        assert(views[i as int] == list@[i as int]@);
        if i > 0 {
            push_all(&mut out, &gap);
        }
        push_all(&mut out, &chars_of(&list[i]));
        assert(out@ =~= listed(views, separator@, (i + 1) as nat));
        i += 1;
    }
    string_of(&out)
}

/// Reads an unsigned number of 64 bits.
pub fn parse_number(s: &[char]) -> (r: Option<u64>)
    ensures
        r == number(s@),
{
    let digits = if s.len() > 0 && s[0] == '+' {
        assert(s@.subrange(0, 1) =~= seq!['+']);
        slice_subrange(s, 1, s.len())
    } else {
        proof {
            if begins(s@, seq!['+']) {
                assert(s@.subrange(0, 1)[0] == '+');
            }
        }
        s
    };
    let ghost all = if begins(s@, seq!['+']) {
        s@.skip(1)
    } else {
        s@
    };
    assert(digits@ =~= all);
    if digits.len() == 0 {
        return None;
    }
    let mut value: u64 = 0;
    let mut i: usize = 0;
    while i < digits.len()
        invariant
            i <= digits@.len(),
            digits@ == all,
            number(s@) == if all.len() > 0 && all_digits(all) && digits_value(all) <= u64::MAX {
                Some(digits_value(all) as u64)
            } else {
                None
            },
            value == digits_value(digits@.take(i as int)),
            all_digits(digits@.take(i as int)),
        decreases digits@.len() - i,
    {
        let c = digits[i];
        if c < '0' || c > '9' {
            assert(!all_digits(all));
            return None;
        }
        let digit: u64 = (c as u32 - '0' as u32) as u64;
        proof {
            assert(digits@.take(i + 1).drop_last() =~= digits@.take(i as int));
            assert(digits@.take(i + 1).last() == c);
            assert(digits_value(digits@.take(i + 1)) == value * 10 + digit);
            lemma_digits_grow(all, i + 1);
            assert forall|k: int| 0 <= k < i + 1 implies '0' <= #[trigger] digits@.take(i + 1)[k]
                <= '9' by {
                if k < i {
                    assert(digits@.take(i as int)[k] == digits@.take(i + 1)[k]);
                }
            }
        }
        match value.checked_mul(10) {
            Some(tens) => match tens.checked_add(digit) {
                Some(next) => {
                    value = next;
                },
                None => {
                    return None;
                },
            },
            None => {
                return None;
            },
        }
        i += 1;
    }
    assert(digits@.take(i as int) =~= all);
    Some(value)
}

/// A run of digits stands for at least what its first digits stand for.
proof fn lemma_digits_grow(s: Seq<char>, n: int)
    requires
        0 <= n <= s.len(),
    ensures
        all_digits(s) ==> digits_value(s.take(n)) <= digits_value(s),
    decreases s.len() - n,
{
    if n < s.len() {
        lemma_digits_grow(s, n + 1);
        assert(s.take(n + 1).drop_last() =~= s.take(n));
        assert(digits_value(s.take(n)) <= digits_value(s.take(n + 1)));
    } else {
        assert(s.take(n) =~= s);
    }
}

/// Reading a number that is written in decimal gives it back.
pub proof fn numbers_are_read_as_written(n: u64)
    ensures
        number(decimal(n as nat)) == Some(n),
{
    lemma_decimal(n as nat);
    let s = decimal(n as nat);
    if begins(s, seq!['+']) {
        assert(s.subrange(0, 1)[0] == '+');
        assert(s[0] == '+');
    }
}

/// What the digits of a number are.
pub proof fn lemma_decimal(n: nat)
    ensures
        decimal(n).len() > 0,
        all_digits(decimal(n)),
        digits_value(decimal(n)) == n,
    decreases n,
{
    if n < 10 {
        let s = decimal(n);
        assert(s.drop_last() =~= Seq::<char>::empty());
        assert(s.last() as u32 == '0' as u32 + n);
        assert(digits_value(s.drop_last()) == 0);
        assert(digits_value(s) == digits_value(s.drop_last()) * 10 + n);
    } else {
        lemma_decimal(n / 10);
        let s = decimal(n);
        assert(s.drop_last() =~= decimal(n / 10));
        assert(s.last() as u32 == '0' as u32 + n % 10);
        assert(digits_value(s) == digits_value(s.drop_last()) * 10 + n % 10);
    }
}

/// The text of the line that begins at an index.
pub open spec fn line_at(s: Seq<char>, at: int) -> Seq<char> {
    line_text(s.subrange(at, line_end(s, at)))
}

/// Whether an index begins a line.
pub open spec fn begins_line(s: Seq<char>, at: int) -> bool {
    line_start(s, at) == at
}

/// A line in the middle of a text is the line of the part that it lies in.
pub proof fn lemma_line_shift(p: Seq<char>, q: Seq<char>, r: Seq<char>, k: int)
    requires
        0 <= k < q.len(),
        q.last() == '\n',
    ensures
        line_end(p + q + r, p.len() + k) == p.len() + line_end(q, k),
        line_at(p + q + r, p.len() + k) == line_at(q, k),
        k < line_end(q, k) <= q.len(),
        line_end(q, k) < q.len() ==> begins_line(q, line_end(q, k)),
{
    let s = p + q + r;
    let feed = next_index(q, '\n', k);
    lemma_next_index_is(q, '\n', k);
    if feed == q.len() {
        assert(q[q.len() - 1] != '\n');
    }
    assert forall|i: int| p.len() + k <= i < p.len() + feed implies #[trigger] s[i] != '\n' by {
        assert(s[i] == q[i - p.len()]);
    }
    lemma_next_index(s, '\n', p.len() + k, p.len() + feed);
    assert(s.subrange(p.len() + k, p.len() + feed + 1) =~= q.subrange(k, feed + 1));
    lemma_line_end(q, k);
}

/// A line behind another text is the line of the text that it lies in.
pub proof fn lemma_line_behind(p: Seq<char>, s: Seq<char>, k: int)
    requires
        0 <= k < s.len(),
    ensures
        line_end(p + s, p.len() + k) == p.len() + line_end(s, k),
        line_at(p + s, p.len() + k) == line_at(s, k),
        k < line_end(s, k) <= s.len(),
{
    let whole = p + s;
    let feed = next_index(s, '\n', k);
    lemma_next_index_is(s, '\n', k);
    lemma_line_end(s, k);
    assert forall|i: int| p.len() + k <= i < p.len() + feed implies #[trigger] whole[i] != '\n' by {
        assert(whole[i] == s[i - p.len()]);
    }
    lemma_next_index(whole, '\n', p.len() + k, p.len() + feed);
    assert(whole.subrange(p.len() + k, p.len() + line_end(s, k)) =~= s.subrange(
        k,
        line_end(s, k),
    ));
}

/// A run of spaces.
pub open spec fn spaces(n: int) -> Seq<char> {
    Seq::new(
        if n > 0 {
            n as nat
        } else {
            0
        },
        |i: int| ' ',
    )
}

/// A text with spaces behind it, up to a number of characters.
pub open spec fn padded_right(s: Seq<char>, width: nat) -> Seq<char> {
    s + spaces(width - s.len())
}

/// A text with spaces before it, up to a number of characters.
pub open spec fn padded_left(s: Seq<char>, width: nat) -> Seq<char> {
    spaces(width - s.len()) + s
}

/// Appends spaces to a buffer until a text of the given length would fill a number of characters.
fn push_spaces(out: &mut Vec<char>, len: usize, width: usize)
    ensures
        final(out)@ == old(out)@ + spaces(width - len),
{
    let mut i: usize = len;
    while i < width
        invariant
            len <= i,
            i <= width || i == len,
            out@ =~= old(out)@ + spaces(i - len),
        decreases width - i,
    {
        out.push(' ');
        i += 1;
    }
    assert(spaces(i - len) =~= spaces(width - len));
}

/// Appends a text and spaces behind it.
pub fn push_padded_right(out: &mut Vec<char>, s: &[char], width: usize)
    ensures
        final(out)@ == old(out)@ + padded_right(s@, width as nat),
{
    push_all(out, s);
    push_spaces(out, s.len(), width);
    assert(out@ =~= old(out)@ + padded_right(s@, width as nat));
}

/// Appends a text and spaces before it.
pub fn push_padded_left(out: &mut Vec<char>, s: &[char], width: usize)
    ensures
        final(out)@ == old(out)@ + padded_left(s@, width as nat),
{
    push_spaces(out, s.len(), width);
    push_all(out, s);
    assert(out@ =~= old(out)@ + padded_left(s@, width as nat));
}

/// Appends a string.
pub fn push_str(out: &mut Vec<char>, s: &str)
    ensures
        final(out)@ == old(out)@ + s@,
{
    push_all(out, &chars_of(s));
}

/// Appends a number in decimal.
pub fn push_number(out: &mut Vec<char>, n: usize)
    ensures
        final(out)@ == old(out)@ + decimal(n as nat),
{
    push_all(out, &decimal_of(n as u64));
}

} // verus!
