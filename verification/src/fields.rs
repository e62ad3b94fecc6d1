//! Custom fields of a card: values under names, in the order of the names.

use crate::outside;
use crate::text;
use vstd::prelude::*;

verus! {

/// Whether entries stand in the order of their names, each name once.
pub open spec fn ordered(entries: Seq<(Seq<char>, Seq<char>)>) -> bool {
    forall|i: int, j: int|
        0 <= i < j < entries.len() ==> text::precedes(
            (#[trigger] entries[i]).0,
            (#[trigger] entries[j]).0,
        )
}

/// Whether one of the entries has a name.
pub open spec fn names(entries: Seq<(Seq<char>, Seq<char>)>, key: Seq<char>) -> bool {
    exists|i: int| 0 <= i < entries.len() && (#[trigger] entries[i]).0 == key
}

/// The value of an entry with a name.
pub open spec fn value(entries: Seq<(Seq<char>, Seq<char>)>, key: Seq<char>) -> Seq<char> {
    entries[choose|i: int| 0 <= i < entries.len() && (#[trigger] entries[i]).0 == key].1
}

/// The values under their names.
pub open spec fn table(entries: Seq<(Seq<char>, Seq<char>)>) -> Map<Seq<char>, Seq<char>> {
    Map::new(|key: Seq<char>| names(entries, key), |key: Seq<char>| value(entries, key))
}

/// In ordered entries a name leads to one entry.
proof fn lemma_value(entries: Seq<(Seq<char>, Seq<char>)>, i: int)
    requires
        ordered(entries),
        0 <= i < entries.len(),
    ensures
        table(entries).dom().contains(entries[i].0),
        table(entries)[entries[i].0] == entries[i].1,
{
    let key = entries[i].0;
    let k = choose|k: int| 0 <= k < entries.len() && (#[trigger] entries[k]).0 == key;
    assert(0 <= k < entries.len() && entries[k].0 == key);
    text::lemma_precedes_self(key);
    if k < i {
        assert(text::precedes(entries[k].0, entries[i].0));
    }
    if i < k {
        assert(text::precedes(entries[i].0, entries[k].0));
    }
}

/// Whether a name is that of a card field, whatever the case of its letters.
pub open spec fn is_reserved(key: Seq<char>) -> bool {
    text::alike(key, "id"@) || text::alike(key, "title"@) || text::alike(key, "status"@)
        || text::alike(key, "labels"@) || text::alike(key, "assignee"@) || text::alike(
        key,
        "assignees"@,
    ) || text::alike(key, "ordinal"@) || text::alike(key, "created_date"@) || text::alike(
        key,
        "updated_date"@,
    )
}

/// Whether a name is that of a card field.
pub fn reserved(key: &str) -> (r: bool)
    ensures
        r == is_reserved(key@),
{
    text::alike_strings(key, "id") || text::alike_strings(key, "title") || text::alike_strings(
        key,
        "status",
    ) || text::alike_strings(key, "labels") || text::alike_strings(key, "assignee")
        || text::alike_strings(key, "assignees") || text::alike_strings(key, "ordinal")
        || text::alike_strings(key, "created_date") || text::alike_strings(key, "updated_date")
}

/// Whether a name is the first of the reserved ones among the fields.
pub open spec fn is_first_reserved(fields: Map<Seq<char>, Seq<char>>, key: Seq<char>) -> bool {
    &&& fields.dom().contains(key)
    &&& is_reserved(key)
    &&& forall|other: Seq<char>| #[trigger]
        fields.dom().contains(other) && is_reserved(other) ==> other == key || text::precedes(
            key,
            other,
        )
}

/// Whether one of the fields has a reserved name.
pub open spec fn has_reserved(fields: Map<Seq<char>, Seq<char>>) -> bool {
    exists|key: Seq<char>| #[trigger] fields.dom().contains(key) && is_reserved(key)
}

/// The first reserved name among the fields.
pub open spec fn first_reserved(fields: Map<Seq<char>, Seq<char>>) -> Option<Seq<char>> {
    if has_reserved(fields) {
        Some(choose|key: Seq<char>| is_first_reserved(fields, key))
    } else {
        None
    }
}

/// Custom fields: each value, a JSON text, under its name.
#[derive(Debug, PartialEq, Eq)]
pub struct Fields {
    entries: Vec<(String, String)>,
}

impl View for Fields {
    type V = Map<Seq<char>, Seq<char>>;

    closed spec fn view(&self) -> Map<Seq<char>, Seq<char>> {
        table(outside::entry_views(self.entries@))
    }
}

impl Fields {
    #[verifier::type_invariant]
    spec fn well_formed(&self) -> bool {
        ordered(outside::entry_views(self.entries@))
    }

    /// The names and values in order: the one list in the order of the names that gives the fields.
    pub closed spec fn listing(&self) -> Seq<(Seq<char>, Seq<char>)> {
        outside::entry_views(self.entries@)
    }

    /// No fields.
    pub fn new() -> (r: Fields)
        ensures
            r@ == Map::<Seq<char>, Seq<char>>::empty(),
    {
        let entries: Vec<(String, String)> = Vec::new();
        let r = Fields { entries };
        assert(r@ =~= Map::<Seq<char>, Seq<char>>::empty());
        r
    }

    /// How many fields there are.
    pub fn len(&self) -> (r: usize)
        ensures
            r == self.listing().len(),
            ordered(self.listing()),
            table(self.listing()) == self@,
    {
        proof {
            use_type_invariant(self);
        }
        self.entries.len()
    }

    /// The name of the field at a place.
    pub fn key(&self, i: usize) -> (r: &str)
        requires
            i < self.listing().len(),
        ensures
            r@ == self.listing()[i as int].0,
            self@.dom().contains(r@),
    {
        proof {
            use_type_invariant(self);
            lemma_value(outside::entry_views(self.entries@), i as int);
        }
        self.entries[i].0.as_str()
    }

    /// The value of the field at a place.
    pub fn value(&self, i: usize) -> (r: &str)
        requires
            i < self.listing().len(),
        ensures
            r@ == self.listing()[i as int].1,
            self@[self.listing()[i as int].0] == r@,
    {
        proof {
            use_type_invariant(self);
            lemma_value(outside::entry_views(self.entries@), i as int);
        }
        self.entries[i].1.as_str()
    }

    /// Finds the place of a field.
    fn find(&self, key: &str) -> (r: Option<usize>)
        ensures
            match r {
                Some(i) => i < self.listing().len() && self.listing()[i as int].0 == key@,
                None => !self@.dom().contains(key@),
            },
    {
        let ghost views = outside::entry_views(self.entries@);
        let mut i: usize = 0;
        while i < self.entries.len()
            invariant
                i <= self.entries@.len(),
                views == outside::entry_views(self.entries@),
                forall|k: int| 0 <= k < i ==> (#[trigger] views[k]).0 != key@,
            decreases self.entries@.len() - i,
        {
            assert(views[i as int] == (self.entries@[i as int].0@, self.entries@[i as int].1@));
            if text::same_string(&self.entries[i].0, key) {
                return Some(i);
            }
            i += 1;
        }
        assert(!names(views, key@));
        None
    }

    /// The value of a field.
    pub fn get(&self, key: &str) -> (r: Option<&str>)
        ensures
            match r {
                Some(value) => self@.dom().contains(key@) && value@ == self@[key@],
                None => !self@.dom().contains(key@),
            },
    {
        match self.find(key) {
            Some(i) => {
                proof {
                    use_type_invariant(self);
                    lemma_value(outside::entry_views(self.entries@), i as int);
                }
                Some(self.value(i))
            },
            None => None,
        }
    }

    /// Finds the first reserved name.
    pub fn reserved_key(&self) -> (r: Option<&str>)
        ensures
            match r {
                Some(key) => first_reserved(self@) == Some(key@),
                None => first_reserved(self@) is None,
            },
    {
        proof {
            use_type_invariant(self);
        }
        let ghost views = outside::entry_views(self.entries@);
        let mut i: usize = 0;
        while i < self.entries.len()
            invariant
                i <= self.entries@.len(),
                views == outside::entry_views(self.entries@),
                ordered(views),
                self@ == table(views),
                forall|k: int| 0 <= k < i ==> !is_reserved((#[trigger] views[k]).0),
            decreases self.entries@.len() - i,
        {
            assert(views[i as int] == (self.entries@[i as int].0@, self.entries@[i as int].1@));
            if reserved(&self.entries[i].0) {
                let ghost key = views[i as int].0;
                proof {
                    lemma_value(views, i as int);
                    assert forall|other: Seq<char>| #[trigger]
                        self@.dom().contains(other) && is_reserved(other) implies other == key
                        || text::precedes(key, other) by {
                        let k = choose|k: int|
                            0 <= k < views.len() && (#[trigger] views[k]).0 == other;
                        assert(names(views, other));
                        assert(views[k].0 == other);
                    }
                    assert(is_first_reserved(self@, key));
                    let least = choose|key: Seq<char>| is_first_reserved(self@, key);
                    assert(is_first_reserved(self@, least));
                    text::lemma_precedes_self(key);
                    if least != key {
                        assert(text::precedes(key, least));
                        assert(text::precedes(least, key));
                        text::lemma_precedes_transitive(key, least, key);
                    }
                }
                return Some(self.entries[i].0.as_str());
            }
            i += 1;
        }
        proof {
            assert forall|key: Seq<char>| #[trigger] self@.dom().contains(key) implies !is_reserved(
                key,
            ) by {
                assert(names(views, key));
                let k = choose|k: int| 0 <= k < views.len() && (#[trigger] views[k]).0 == key;
                assert(views[k].0 == key);
            }
        }
        None
    }

    /// The fields with one set.
    pub fn with(&self, key: &str, value: &str) -> (r: Fields)
        ensures
            r@ == self@.insert(key@, value@),
    {
        proof {
            use_type_invariant(self);
        }
        let ghost views = outside::entry_views(self.entries@);
        let wanted = text::chars_of(key);
        let mut out: Vec<(String, String)> = Vec::new();
        let mut i: usize = 0;
        while i < self.entries.len() && text::comes_before(
            &text::chars_of(&self.entries[i].0),
            &wanted,
        )
            invariant
                i <= self.entries@.len(),
                views == outside::entry_views(self.entries@),
                wanted@ == key@,
                outside::entry_views(out@) =~= views.take(i as int),
                forall|k: int| 0 <= k < i ==> text::precedes((#[trigger] views[k]).0, key@),
            decreases self.entries@.len() - i,
        {
            let copy = (
                text::copy_string(&self.entries[i].0),
                text::copy_string(&self.entries[i].1),
            );
            let ghost before = outside::entry_views(out@);
            let ghost added = (copy.0@, copy.1@);
            assert(views[i as int] == added);
            out.push(copy);
            assert(outside::entry_views(out@) =~= before.push(added));
            assert(views.take(i + 1) =~= views.take(i as int).push(added));
            i += 1;
        }
        let low = i;
        let ghost head = outside::entry_views(out@);
        let pair = (text::copy_string(key), text::copy_string(value));
        let ghost middle = (key@, value@);
        assert((pair.0@, pair.1@) == middle);
        out.push(pair);
        assert(outside::entry_views(out@) =~= head.push(middle));
        if i < self.entries.len() {
            assert(views[i as int] == (self.entries@[i as int].0@, self.entries@[i as int].1@));
            if text::same_string(&self.entries[i].0, key) {
                i += 1;
            }
        }
        let high = i;
        while i < self.entries.len()
            invariant
                high <= i <= self.entries@.len(),
                views == outside::entry_views(self.entries@),
                outside::entry_views(out@) =~= head.push(middle) + views.subrange(high as int, i as int),
            decreases self.entries@.len() - i,
        {
            let copy = (
                text::copy_string(&self.entries[i].0),
                text::copy_string(&self.entries[i].1),
            );
            let ghost before = outside::entry_views(out@);
            let ghost added = (copy.0@, copy.1@);
            assert(views[i as int] == added);
            out.push(copy);
            assert(outside::entry_views(out@) =~= before.push(added));
            assert(views.subrange(high as int, i + 1) =~= views.subrange(
                high as int,
                i as int,
            ).push(added));
            i += 1;
        }
        proof {
            lemma_with(views, low as int, high as int, key@, value@, outside::entry_views(out@));
        }
        Fields { entries: out }
    }

    /// The fields without one.
    pub fn without(&self, key: &str) -> (r: Fields)
        ensures
            r@ == self@.remove(key@),
    {
        proof {
            use_type_invariant(self);
        }
        let ghost views = outside::entry_views(self.entries@);
        let skipped = match self.find(key) {
            Some(i) => i,
            None => self.entries.len(),
        };
        let mut out: Vec<(String, String)> = Vec::new();
        let mut i: usize = 0;
        while i < self.entries.len()
            invariant
                i <= self.entries@.len(),
                views == outside::entry_views(self.entries@),
                outside::entry_views(out@) =~= if skipped < i {
                    views.take(i as int).remove(skipped as int)
                } else {
                    views.take(i as int)
                },
            decreases self.entries@.len() - i,
        {
            assert(views[i as int] == (self.entries@[i as int].0@, self.entries@[i as int].1@));
            if i != skipped {
                let copy = (
                    text::copy_string(&self.entries[i].0),
                    text::copy_string(&self.entries[i].1),
                );
                let ghost before = outside::entry_views(out@);
                let ghost added = (copy.0@, copy.1@);
                out.push(copy);
                assert(outside::entry_views(out@) =~= before.push(added));
            }
            i += 1;
        }
        proof {
            assert(views.take(i as int) =~= views);
            lemma_without(views, skipped as int, key@);
        }
        Fields { entries: out }
    }

    /// The names and values in order.
    pub fn entries(&self) -> (r: Vec<(String, String)>)
        ensures
            outside::entry_views(r@) == self.listing(),
            ordered(self.listing()),
            table(self.listing()) == self@,
    {
        proof {
            use_type_invariant(self);
        }
        self.copied().entries
    }

    /// A copy of the fields.
    pub fn copied(&self) -> (r: Fields)
        ensures
            r@ == self@,
            r.listing() == self.listing(),
    {
        proof {
            use_type_invariant(self);
        }
        let ghost views = outside::entry_views(self.entries@);
        let mut out: Vec<(String, String)> = Vec::new();
        let mut i: usize = 0;
        while i < self.entries.len()
            invariant
                i <= self.entries@.len(),
                views == outside::entry_views(self.entries@),
                outside::entry_views(out@) =~= views.take(i as int),
            decreases self.entries@.len() - i,
        {
            let copy = (
                text::copy_string(&self.entries[i].0),
                text::copy_string(&self.entries[i].1),
            );
            let ghost before = outside::entry_views(out@);
            let ghost added = (copy.0@, copy.1@);
            assert(views[i as int] == added);
            out.push(copy);
            assert(outside::entry_views(out@) =~= before.push(added));
            assert(views.take(i + 1) =~= views.take(i as int).push(added));
            i += 1;
        }
        assert(views.take(i as int) =~= views);
        Fields { entries: out }
    }
}

/// Setting a field keeps the order and sets the one value.
proof fn lemma_with(
    old_entries: Seq<(Seq<char>, Seq<char>)>,
    low: int,
    high: int,
    key: Seq<char>,
    value: Seq<char>,
    new_entries: Seq<(Seq<char>, Seq<char>)>,
)
    requires
        ordered(old_entries),
        0 <= low <= high <= old_entries.len(),
        high == low || (high == low + 1 && old_entries[low].0 == key),
        forall|k: int| 0 <= k < low ==> text::precedes((#[trigger] old_entries[k]).0, key),
        low < old_entries.len() ==> !text::precedes(old_entries[low].0, key),
        high == low && low < old_entries.len() ==> old_entries[low].0 != key,
        new_entries == old_entries.take(low).push((key, value)) + old_entries.subrange(
            high,
            old_entries.len() as int,
        ),
    ensures
        ordered(new_entries),
        table(new_entries) == table(old_entries).insert(key, value),
{
    assert forall|k: int| high <= k < old_entries.len() implies text::precedes(
        key,
        (#[trigger] old_entries[k]).0,
    ) by {
        text::lemma_precedes_total(old_entries[low].0, key);
        if low < k {
            assert(text::precedes(old_entries[low].0, old_entries[k].0));
            if high == low {
                text::lemma_precedes_transitive(key, old_entries[low].0, old_entries[k].0);
            }
        }
    }
    assert forall|i: int, j: int| 0 <= i < j < new_entries.len() implies text::precedes(
        (#[trigger] new_entries[i]).0,
        (#[trigger] new_entries[j]).0,
    ) by {
        if i < low && j > low {
            assert(new_entries[j] == old_entries[j - low - 1 + high]);
            assert(new_entries[i] == old_entries[i]);
        } else if i < low && j < low {
            assert(new_entries[i] == old_entries[i]);
            assert(new_entries[j] == old_entries[j]);
        } else if i == low {
            assert(new_entries[j] == old_entries[j - low - 1 + high]);
        } else if i > low {
            assert(new_entries[i] == old_entries[i - low - 1 + high]);
            assert(new_entries[j] == old_entries[j - low - 1 + high]);
        }
    }
    let expected = table(old_entries).insert(key, value);
    lemma_value(new_entries, low);
    assert forall|k: Seq<char>| table(new_entries).dom().contains(k) == expected.dom().contains(
        k,
    ) by {
        if names(old_entries, k) {
            let i = choose|i: int| 0 <= i < old_entries.len() && (#[trigger] old_entries[i]).0 == k;
            if i < low {
                assert(new_entries[i] == old_entries[i]);
            } else if i >= high {
                assert(new_entries[i - high + low + 1] == old_entries[i]);
            }
        }
        if names(new_entries, k) {
            let i = choose|i: int| 0 <= i < new_entries.len() && (#[trigger] new_entries[i]).0 == k;
            if i < low {
                assert(old_entries[i].0 == k);
            } else if i > low {
                assert(old_entries[i - low - 1 + high].0 == k);
            }
        }
    }
    assert forall|k: Seq<char>| table(new_entries).dom().contains(k) implies table(
        new_entries,
    )[k] == expected[k] by {
        let i = choose|i: int| 0 <= i < new_entries.len() && (#[trigger] new_entries[i]).0 == k;
        lemma_value(new_entries, i);
        if i < low {
            assert(new_entries[i] == old_entries[i]);
            lemma_value(old_entries, i);
            text::lemma_precedes_self(key);
        } else if i > low {
            assert(new_entries[i] == old_entries[i - low - 1 + high]);
            lemma_value(old_entries, i - low - 1 + high);
            text::lemma_precedes_self(key);
        }
    }
    assert(table(new_entries) =~= expected);
}

/// Leaving out a field keeps the order and removes the one value.
proof fn lemma_without(entries: Seq<(Seq<char>, Seq<char>)>, at: int, key: Seq<char>)
    requires
        ordered(entries),
        0 <= at <= entries.len(),
        at < entries.len() ==> entries[at].0 == key,
        at == entries.len() ==> !names(entries, key),
    ensures
        ({
            let left = if at < entries.len() {
                entries.remove(at)
            } else {
                entries
            };
            &&& ordered(left)
            &&& table(left) == table(entries).remove(key)
        }),
{
    if at < entries.len() {
        let left = entries.remove(at);
        assert forall|i: int, j: int| 0 <= i < j < left.len() implies text::precedes(
            (#[trigger] left[i]).0,
            (#[trigger] left[j]).0,
        ) by {
            let a = if i < at {
                i
            } else {
                i + 1
            };
            let b = if j < at {
                j
            } else {
                j + 1
            };
            assert(left[i] == entries[a] && left[j] == entries[b]);
        }
        let expected = table(entries).remove(key);
        assert forall|k: Seq<char>| table(left).dom().contains(k) == expected.dom().contains(k) by {
            text::lemma_precedes_self(key);
            if names(entries, k) && k != key {
                let i = choose|i: int| 0 <= i < entries.len() && (#[trigger] entries[i]).0 == k;
                let b = if i < at {
                    i
                } else {
                    i - 1
                };
                assert(left[b] == entries[i]);
            }
            if names(left, k) {
                let i = choose|i: int| 0 <= i < left.len() && (#[trigger] left[i]).0 == k;
                if i < at {
                    assert(left[i] == entries[i]);
                    assert(text::precedes(entries[i].0, entries[at].0));
                } else {
                    assert(left[i] == entries[i + 1]);
                    assert(text::precedes(entries[at].0, entries[i + 1].0));
                }
            }
        }
        assert forall|k: Seq<char>| table(left).dom().contains(k) implies table(left)[k]
            == expected[k] by {
            let i = choose|i: int| 0 <= i < left.len() && (#[trigger] left[i]).0 == k;
            assert(names(left, k));
            assert(expected.dom().contains(k));
            lemma_value(left, i);
            if i < at {
                assert(left[i] == entries[i]);
                lemma_value(entries, i);
            } else {
                assert(left[i] == entries[i + 1]);
                lemma_value(entries, i + 1);
            }
        }
        assert(table(left) =~= expected);
    } else {
        assert(table(entries) =~= table(entries).remove(key));
    }
}

/// A list in the order of the names gives each value under its name, and nothing else.
pub proof fn a_list_gives_its_fields(entries: Seq<(Seq<char>, Seq<char>)>)
    requires
        ordered(entries),
    ensures
        forall|i: int|
            0 <= i < entries.len() ==> table(entries).dom().contains((#[trigger] entries[i]).0)
                && table(entries)[entries[i].0] == entries[i].1,
        forall|key: Seq<char>| #[trigger]
            table(entries).dom().contains(key) ==> names(entries, key),
{
    assert forall|i: int| 0 <= i < entries.len() implies table(entries).dom().contains(
        (#[trigger] entries[i]).0,
    ) && table(entries)[entries[i].0] == entries[i].1 by {
        lemma_value(entries, i);
    }
}

/// Fields have one list in the order of their names.
pub proof fn fields_have_one_list(
    a: Seq<(Seq<char>, Seq<char>)>,
    b: Seq<(Seq<char>, Seq<char>)>,
)
    requires
        ordered(a),
        ordered(b),
        table(a) == table(b),
    ensures
        a == b,
    decreases a.len(),
{
    a_list_gives_its_fields(a);
    a_list_gives_its_fields(b);
    if a.len() == 0 {
        if b.len() > 0 {
            assert(table(a).dom().contains(b[0].0));
        }
        assert(a =~= b);
    } else {
        let m = a.len() - 1;
        assert(table(b).dom().contains(a[m].0));
        let k = choose|k: int| 0 <= k < b.len() && (#[trigger] b[k]).0 == a[m].0;
        let n = b.len() - 1;
        assert(table(a).dom().contains(b[n].0));
        let j = choose|j: int| 0 <= j < a.len() && (#[trigger] a[j]).0 == b[n].0;
        if k < n {
            assert(text::precedes(a[m].0, b[n].0));
            text::lemma_precedes_self(a[m].0);
            if j < m {
                assert(text::precedes(a[j].0, a[m].0));
                text::lemma_precedes_transitive(a[m].0, b[n].0, a[m].0);
            }
        }
        assert(a[m] == b[n]);
        lemma_without(a, m, a[m].0);
        lemma_without(b, n, b[n].0);
        fields_have_one_list(a.remove(m), b.remove(n));
        assert(a =~= a.remove(m).push(a[m]));
        assert(b =~= b.remove(n).push(b[n]));
    }
}

} // verus!
