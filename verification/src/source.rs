//! A text together with the byte offset of each of its characters.

use crate::text;
use vstd::prelude::*;
use vstd::utf8::*;

verus! {

/// The number of bytes that a character takes in UTF-8.
pub open spec fn width(c: char) -> nat {
    encode_scalar(c as u32).len()
}

/// The byte offset of the character at index `i`.
pub open spec fn offset(s: Seq<char>, i: int) -> nat {
    encode_utf8(s.take(i)).len()
}

/// Whether the character at index `i` begins at byte offset `byte`.
pub open spec fn begins_at(s: Seq<char>, byte: int, i: int) -> bool {
    0 <= i <= s.len() && offset(s, i) == byte
}

/// The index of the character that begins at a byte offset. There is none where the offset lies
/// inside a character or behind the end.
pub open spec fn index_of(s: Seq<char>, byte: int) -> Option<usize> {
    if exists|i: int| begins_at(s, byte, i) {
        Some((choose|i: int| begins_at(s, byte, i)) as usize)
    } else {
        None
    }
}

/// Whether the byte offsets of a text fit a machine word.
pub open spec fn fits(s: Seq<char>) -> bool {
    encode_utf8(s).len() <= usize::MAX
}

/// Encoding goes character by character.
pub proof fn lemma_encode_concat(a: Seq<char>, b: Seq<char>)
    ensures
        encode_utf8(a + b) == encode_utf8(a) + encode_utf8(b),
    decreases a.len(),
{
    if a.len() == 0 {
        assert(a + b =~= b);
        assert(encode_utf8(a) =~= Seq::<u8>::empty());
        assert(encode_utf8(a) + encode_utf8(b) =~= encode_utf8(b));
    } else {
        assert((a + b).drop_first() =~= a.drop_first() + b);
        lemma_encode_concat(a.drop_first(), b);
        assert(encode_utf8(a + b) =~= encode_scalar(a[0] as u32) + (encode_utf8(a.drop_first())
            + encode_utf8(b)));
        assert(encode_utf8(a) + encode_utf8(b) =~= encode_scalar(a[0] as u32) + (encode_utf8(
            a.drop_first(),
        ) + encode_utf8(b)));
    }
}

/// The byte offset grows by the width of each character.
pub proof fn lemma_offset_step(s: Seq<char>, i: int)
    requires
        0 <= i < s.len(),
    ensures
        offset(s, i + 1) == offset(s, i) + width(s[i]),
        1 <= width(s[i]) <= 4,
{
    assert(s.take(i + 1) =~= s.take(i) + seq![s[i]]);
    lemma_encode_concat(s.take(i), seq![s[i]]);
    assert(seq![s[i]].drop_first() =~= Seq::<char>::empty());
    char_is_scalar(s[i]);
    let one = seq![s[i]];
    assert(encode_utf8(one.drop_first()) =~= Seq::<u8>::empty());
    assert(one[0] == s[i]);
    assert(encode_utf8(one) =~= encode_scalar(s[i] as u32));
}

/// Byte offsets are strictly increasing.
pub proof fn lemma_offset_increases(s: Seq<char>, i: int, j: int)
    requires
        0 <= i <= j <= s.len(),
    ensures
        offset(s, i) + (j - i) <= offset(s, j),
    decreases j - i,
{
    if i < j {
        lemma_offset_increases(s, i, j - 1);
        lemma_offset_step(s, j - 1);
    }
}

/// No two characters begin at one byte offset.
pub proof fn lemma_index_of(s: Seq<char>, byte: int, i: int)
    requires
        begins_at(s, byte, i),
        fits(s),
    ensures
        index_of(s, byte) == Some(i as usize),
        i <= usize::MAX,
{
    let k = choose|k: int| begins_at(s, byte, k);
    assert(begins_at(s, byte, k));
    if i < k {
        lemma_offset_increases(s, i, k);
    }
    if k < i {
        lemma_offset_increases(s, k, i);
    }
    lemma_offset_increases(s, 0, i);
    lemma_offset_increases(s, i, s.len() as int);
    assert(s.take(s.len() as int) =~= s);
}

/// A text and the byte offset of each of its characters, and of its end.
pub struct Source {
    pub chars: Vec<char>,
    pub bytes: Vec<usize>,
}

impl View for Source {
    type V = Seq<char>;

    open spec fn view(&self) -> Seq<char> {
        self.chars@
    }
}

impl Source {
    /// The table holds the offset of each character and of the end.
    pub open spec fn well_formed(&self) -> bool {
        &&& self.bytes@.len() == self@.len() + 1
        &&& forall|i: int| 0 <= i <= self@.len() ==> #[trigger] self.bytes@[i] == offset(self@, i)
    }

    /// Reads a text.
    pub fn of(body: &str) -> (r: Source)
        ensures
            r@ == body@,
            r.well_formed(),
            fits(body@),
            body@.len() <= usize::MAX,
    {
        let size = body.as_bytes().len();
        assert(encode_utf8(body@).len() == size);
        let chars = text::chars_of(body);
        let mut bytes: Vec<usize> = Vec::new();
        let mut total: usize = 0;
        let mut i: usize = 0;
        proof {
            assert(chars@.take(0) =~= Seq::<char>::empty());
        }
        bytes.push(0);
        while i < chars.len()
            invariant
                i <= chars@.len(),
                bytes@.len() == i + 1,
                total == offset(chars@, i as int),
                encode_utf8(chars@).len() == size,
                forall|k: int| 0 <= k <= i ==> #[trigger] bytes@[k] == offset(chars@, k),
            decreases chars@.len() - i,
        {
            proof {
                lemma_offset_step(chars@, i as int);
                lemma_offset_increases(chars@, i + 1, chars@.len() as int);
                assert(chars@.take(chars@.len() as int) =~= chars@);
                char_is_scalar(chars@[i as int]);
            }
            total = total + width_of(chars[i]);
            bytes.push(total);
            i += 1;
        }
        Source { chars, bytes }
    }

    /// The byte offset of a character or of the end.
    pub fn byte(&self, i: usize) -> (r: usize)
        requires
            self.well_formed(),
            i <= self@.len(),
        ensures
            r == offset(self@, i as int),
    {
        self.bytes[i]
    }

    /// Looks up the character that begins at a byte offset.
    pub fn index(&self, byte: usize) -> (r: Option<usize>)
        requires
            self.well_formed(),
            fits(self@),
        ensures
            r == index_of(self@, byte as int),
            r is Some ==> r->0 <= self@.len(),
    {
        let mut low: usize = 0;
        let mut high: usize = self.bytes.len();
        while low < high
            invariant
                low <= high <= self.bytes@.len(),
                self.well_formed(),
                fits(self@),
                forall|k: int| 0 <= k < low ==> #[trigger] offset(self@, k) < byte,
                forall|k: int| high <= k <= self@.len() ==> #[trigger] offset(self@, k) > byte,
            decreases high - low,
        {
            let mid = low + (high - low) / 2;
            if self.bytes[mid] == byte {
                proof {
                    assert(begins_at(self@, byte as int, mid as int));
                    lemma_index_of(self@, byte as int, mid as int);
                }
                return Some(mid);
            }
            if self.bytes[mid] < byte {
                proof {
                    assert forall|k: int| 0 <= k < mid + 1 implies #[trigger] offset(self@, k)
                        < byte by {
                        lemma_offset_increases(self@, k, mid as int);
                    }
                }
                low = mid + 1;
            } else {
                proof {
                    assert forall|k: int| mid <= k <= self@.len() implies #[trigger] offset(
                        self@,
                        k,
                    ) > byte by {
                        lemma_offset_increases(self@, mid as int, k);
                    }
                }
                high = mid;
            }
        }
        assert forall|k: int| !begins_at(self@, byte as int, k) by {}
        None
    }
}

/// The number of bytes that a text takes in UTF-8.
pub fn size_of(s: &str) -> (r: usize)
    ensures
        r == encode_utf8(s@).len(),
{
    s.as_bytes().len()
}

/// The number of bytes that a character takes in UTF-8.
pub fn width_of(c: char) -> (r: usize)
    ensures
        r == width(c),
        1 <= r <= 4,
{
    proof {
        char_is_scalar(c);
    }
    if c <= '\u{7f}' {
        1
    } else if c <= '\u{7ff}' {
        2
    } else if c <= '\u{ffff}' {
        3
    } else {
        4
    }
}

} // verus!
