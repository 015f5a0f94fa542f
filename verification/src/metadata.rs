//! Record metadata and the predicates that filter records by it.
//!
//! A float value is held as its IEEE 754 binary64 bit pattern, and compares
//! as `f64` does: a NaN equals nothing, and the two zeros are equal.

use vstd::prelude::*;

use crate::text::{lemma_text_leq_total, text_equals, text_le, text_leq};

verus! {

/// Record metadata value.
#[derive(Clone, Debug)]
pub enum MetadataValue {
    /// Text metadata value.
    Text(String),
    /// Integer metadata value.
    Integer(i64),
    /// Float metadata value, as the bit pattern of the `f64`.
    Float(u64),
    /// Boolean metadata value.
    Boolean(bool),
}

/// Whether a binary64 bit pattern is a NaN: every exponent bit set and a
/// fraction that is not zero.
pub open spec fn float_is_nan(bits: u64) -> bool {
    (bits >> 52u64) & 0x7ffu64 == 0x7ffu64 && bits & 0xf_ffff_ffff_ffffu64 != 0
}

/// Whether a binary64 bit pattern is a zero of either sign.
pub open spec fn float_is_zero(bits: u64) -> bool {
    bits & 0x7fff_ffff_ffff_ffffu64 == 0
}

/// `f64` equality on bit patterns.
pub open spec fn floats_equal(a: u64, b: u64) -> bool {
    !float_is_nan(a) && !float_is_nan(b) && (a == b || (float_is_zero(a) && float_is_zero(b)))
}

/// Whether two metadata values are equal: same kind and equal contents.
pub open spec fn same_value(a: MetadataValue, b: MetadataValue) -> bool {
    match (a, b) {
        (MetadataValue::Text(x), MetadataValue::Text(y)) => x@ == y@,
        (MetadataValue::Integer(x), MetadataValue::Integer(y)) => x == y,
        (MetadataValue::Float(x), MetadataValue::Float(y)) => floats_equal(x, y),
        (MetadataValue::Boolean(x), MetadataValue::Boolean(y)) => x == y,
        _ => false,
    }
}

/// `f64` equality on two bit patterns.
pub fn float_bits_equal(a: u64, b: u64) -> (equal: bool)
    ensures
        equal == floats_equal(a, b),
{
    let a_nan = (a >> 52u64) & 0x7ffu64 == 0x7ffu64 && a & 0xf_ffff_ffff_ffffu64 != 0;
    let b_nan = (b >> 52u64) & 0x7ffu64 == 0x7ffu64 && b & 0xf_ffff_ffff_ffffu64 != 0;
    if a_nan || b_nan {
        return false;
    }
    a == b || (a & 0x7fff_ffff_ffff_ffffu64 == 0 && b & 0x7fff_ffff_ffff_ffffu64 == 0)
}

impl MetadataValue {
    /// Whether two values are equal (`==` of the value type).
    pub fn equals(&self, other: &MetadataValue) -> (equal: bool)
        ensures
            equal == same_value(*self, *other),
    {
        match (self, other) {
            (MetadataValue::Text(x), MetadataValue::Text(y)) => text_equals(x.as_str(), y.as_str()),
            (MetadataValue::Integer(x), MetadataValue::Integer(y)) => *x == *y,
            (MetadataValue::Float(x), MetadataValue::Float(y)) => float_bits_equal(*x, *y),
            (MetadataValue::Boolean(x), MetadataValue::Boolean(y)) => *x == *y,
            _ => false,
        }
    }
}

impl PartialEq for MetadataValue {
    fn eq(&self, other: &MetadataValue) -> (equal: bool) {
        self.equals(other)
    }
}

impl vstd::std_specs::cmp::PartialEqSpecImpl for MetadataValue {
    open spec fn obeys_eq_spec() -> bool {
        true
    }

    open spec fn eq_spec(&self, other: &MetadataValue) -> bool {
        same_value(*self, *other)
    }
}

/// The map that a run of entries describes: a later entry for a key takes
/// the place of an earlier one.
pub open spec fn entry_map(entries: Seq<(String, MetadataValue)>) -> Map<Seq<char>, MetadataValue>
    decreases entries.len(),
{
    if entries.len() == 0 {
        Map::empty()
    } else {
        entry_map(entries.drop_last()).insert(entries.last().0@, entries.last().1)
    }
}

/// Whether no two entries share a key.
pub open spec fn keys_distinct(entries: Seq<(String, MetadataValue)>) -> bool {
    forall|i: int, j: int|
        0 <= i < j < entries.len() ==> #[trigger] entries[i].0@ != #[trigger] entries[j].0@
}

proof fn lemma_entry_map_keys(entries: Seq<(String, MetadataValue)>, key: Seq<char>)
    ensures
        entry_map(entries).contains_key(key) <==> exists|i: int|
            0 <= i < entries.len() && #[trigger] entries[i].0@ == key,
    decreases entries.len(),
{
    if entries.len() > 0 {
        let rest = entries.drop_last();
        lemma_entry_map_keys(rest, key);
        if entry_map(entries).contains_key(key) && key != entries.last().0@ {
            let i = choose|i: int| 0 <= i < rest.len() && #[trigger] rest[i].0@ == key;
            assert(entries[i].0@ == key);
        }
        if exists|i: int| 0 <= i < entries.len() && #[trigger] entries[i].0@ == key {
            let i = choose|i: int| 0 <= i < entries.len() && #[trigger] entries[i].0@ == key;
            if i < entries.len() - 1 {
                assert(rest[i].0@ == key);
            }
        }
    }
}

proof fn lemma_entry_map_value(entries: Seq<(String, MetadataValue)>, i: int)
    requires
        keys_distinct(entries),
        0 <= i < entries.len(),
    ensures
        entry_map(entries).contains_key(entries[i].0@),
        entry_map(entries)[entries[i].0@] == entries[i].1,
    decreases entries.len(),
{
    if i < entries.len() - 1 {
        let rest = entries.drop_last();
        assert(rest[i] == entries[i]);
        assert(keys_distinct(rest)) by {
            assert forall|a: int, b: int| 0 <= a < b < rest.len() implies #[trigger] rest[a].0@
                != #[trigger] rest[b].0@ by {
                assert(rest[a] == entries[a] && rest[b] == entries[b]);
            }
        }
        lemma_entry_map_value(rest, i);
        assert(entries[i].0@ != entries[entries.len() - 1].0@);
    }
}

proof fn lemma_entry_map_replace(
    entries: Seq<(String, MetadataValue)>,
    i: int,
    entry: (String, MetadataValue),
)
    requires
        keys_distinct(entries),
        0 <= i < entries.len(),
        entries[i].0@ == entry.0@,
    ensures
        keys_distinct(entries.update(i, entry)),
        entry_map(entries.update(i, entry)) == entry_map(entries).insert(entry.0@, entry.1),
{
    let updated = entries.update(i, entry);
    assert(keys_distinct(updated)) by {
        assert forall|a: int, b: int| 0 <= a < b < updated.len() implies #[trigger] updated[a].0@
            != #[trigger] updated[b].0@ by {
            assert(updated[a].0@ == entries[a].0@ && updated[b].0@ == entries[b].0@);
        }
    }
    let left = entry_map(updated);
    let right = entry_map(entries).insert(entry.0@, entry.1);
    assert forall|key: Seq<char>| left.contains_key(key) <==> right.contains_key(key) by {
        lemma_entry_map_keys(updated, key);
        lemma_entry_map_keys(entries, key);
        if left.contains_key(key) {
            let j = choose|j: int| 0 <= j < updated.len() && #[trigger] updated[j].0@ == key;
            assert(entries[j].0@ == key);
        }
        if entry_map(entries).contains_key(key) {
            let j = choose|j: int| 0 <= j < entries.len() && #[trigger] entries[j].0@ == key;
            assert(updated[j].0@ == key);
        }
        if key == entry.0@ {
            assert(updated[i].0@ == key);
        }
    }
    assert forall|key: Seq<char>| #[trigger] left.contains_key(key) implies left[key] == right[key] by {
        lemma_entry_map_keys(updated, key);
        let j = choose|j: int| 0 <= j < updated.len() && #[trigger] updated[j].0@ == key;
        lemma_entry_map_value(updated, j);
        if j != i {
            lemma_entry_map_value(entries, j);
        }
    }
    assert(left =~= right);
}

/// Record metadata: text keys, each with one value.
#[derive(Debug)]
pub struct Metadata {
    entries: Vec<(String, MetadataValue)>,
}

impl View for Metadata {
    type V = Map<Seq<char>, MetadataValue>;

    closed spec fn view(&self) -> Map<Seq<char>, MetadataValue> {
        entry_map(self.entries@)
    }
}

impl Metadata {
    #[verifier::type_invariant]
    spec fn well_formed(self) -> bool {
        keys_distinct(self.entries@)
    }

    /// Metadata with no keys.
    pub fn new() -> (metadata: Metadata)
        ensures
            metadata@ == Map::<Seq<char>, MetadataValue>::empty(),
    {
        let metadata = Metadata { entries: Vec::new() };
        assert(metadata@ =~= Map::<Seq<char>, MetadataValue>::empty());
        metadata
    }

    /// The number of keys.
    pub fn len(&self) -> (count: usize)
        ensures
            count == self@.dom().len(),
    {
        proof {
            use_type_invariant(self);
            self.lemma_len();
        }
        self.entries.len()
    }

    proof fn lemma_len(&self)
        requires
            keys_distinct(self.entries@),
        ensures
            self@.dom().finite(),
            self@.dom().len() == self.entries@.len(),
    {
        lemma_entry_map_len(self.entries@);
    }

    /// The value of a key, if the key is present.
    pub fn get(&self, key: &str) -> (value: Option<&MetadataValue>)
        ensures
            value == (if self@.contains_key(key@) { Some(&self@[key@]) } else { None }),
    {
        proof {
            use_type_invariant(self);
        }
        let mut i: usize = 0;
        while i < self.entries.len()
            invariant
                i <= self.entries@.len(),
                keys_distinct(self.entries@),
                forall|j: int| 0 <= j < i ==> #[trigger] self.entries@[j].0@ != key@,
            decreases self.entries@.len() - i,
        {
            if text_equals(self.entries[i].0.as_str(), key) {
                proof {
                    lemma_entry_map_value(self.entries@, i as int);
                }
                return Some(&self.entries[i].1);
            }
            i = i + 1;
        }
        proof {
            lemma_entry_map_keys(self.entries@, key@);
        }
        None
    }

    /// The entries in key order (the order of the keys' characters, as
    /// `String`'s ordering compares them), each key once.
    pub fn entries(&self) -> (entries: Vec<(&String, &MetadataValue)>)
        ensures
            entries@.len() == self@.dom().len(),
            forall|i: int|
                0 <= i < entries@.len() ==> self@.contains_key((#[trigger] entries@[i]).0@) && self@[entries@[
                    i
                ].0@] == *entries@[i].1,
            forall|i: int, j: int|
                0 <= i < j < entries@.len() ==> text_leq((#[trigger] entries@[i]).0@, (#[trigger] entries@[j]).0@)
                    && entries@[i].0@ != entries@[j].0@,
    {
        proof {
            use_type_invariant(self);
            self.lemma_len();
            lemma_text_leq_total();
        }
        let ghost keys = self.entries@;
        let mut order: Vec<usize> = Vec::new();
        let mut k: usize = 0;
        while k < self.entries.len()
            invariant
                keys == self.entries@,
                keys_distinct(keys),
                k <= keys.len(),
                order@.len() == k,
                forall|i: int| 0 <= i < order@.len() ==> (#[trigger] order@[i]) < k,
                forall|i: int, j: int| 0 <= i < j < order@.len() ==> #[trigger] order@[i] != #[trigger] order@[j],
                forall|i: int, j: int|
                    0 <= i < j < order@.len() ==> text_leq(
                        keys[#[trigger] order@[i] as int].0@,
                        keys[#[trigger] order@[j] as int].0@,
                    ),
                forall|a: Seq<char>| #[trigger] text_leq(a, a),
                forall|a: Seq<char>, b: Seq<char>, c: Seq<char>|
                    #[trigger] text_leq(a, b) && #[trigger] text_leq(b, c) ==> text_leq(a, c),
                forall|a: Seq<char>, b: Seq<char>| #[trigger] text_leq(a, b) || #[trigger] text_leq(b, a),
            decreases keys.len() - k,
        {
            let key = self.entries[k].0.as_str();
            let mut p: usize = 0;
            while p < order.len() && !text_le(key, self.entries[order[p]].0.as_str())
                invariant
                    keys == self.entries@,
                    key@ == keys[k as int].0@,
                    k < keys.len(),
                    p <= order@.len(),
                    forall|i: int| 0 <= i < order@.len() ==> (#[trigger] order@[i]) < k,
                    forall|q: int| 0 <= q < p ==> text_leq(keys[#[trigger] order@[q] as int].0@, key@),
                    forall|a: Seq<char>, b: Seq<char>| #[trigger] text_leq(a, b) || #[trigger] text_leq(b, a),
                decreases order@.len() - p,
            {
                assert(text_leq(keys[order@[p as int] as int].0@, key@));
                p = p + 1;
            }
            let ghost old_order = order@;
            order.insert(p, k);
            proof {
                assert forall|i: int, j: int| 0 <= i < j < order@.len() implies text_leq(
                    keys[#[trigger] order@[i] as int].0@,
                    keys[#[trigger] order@[j] as int].0@,
                ) by {
                    if j < p {
                        assert(order@[i] == old_order[i] && order@[j] == old_order[j]);
                    } else if j == p {
                        assert(order@[i] == old_order[i]);
                    } else if i < p {
                        assert(order@[i] == old_order[i] && order@[j] == old_order[j - 1]);
                        assert(text_leq(key@, keys[old_order[p as int] as int].0@));
                        assert(text_leq(keys[old_order[i] as int].0@, key@));
                        if j - 1 > p {
                            assert(text_leq(keys[old_order[p as int] as int].0@, keys[old_order[j - 1] as int].0@));
                        }
                    } else if i == p {
                        assert(order@[j] == old_order[j - 1]);
                        assert(text_leq(key@, keys[old_order[p as int] as int].0@));
                        if j - 1 > p {
                            assert(text_leq(keys[old_order[p as int] as int].0@, keys[old_order[j - 1] as int].0@));
                        }
                    } else {
                        assert(order@[i] == old_order[i - 1] && order@[j] == old_order[j - 1]);
                    }
                }
                assert forall|i: int, j: int| 0 <= i < j < order@.len() implies #[trigger] order@[i]
                    != #[trigger] order@[j] by {
                    if j < p {
                        assert(order@[i] == old_order[i] && order@[j] == old_order[j]);
                    } else if j == p {
                        assert(order@[i] == old_order[i]);
                    } else if i < p {
                        assert(order@[i] == old_order[i] && order@[j] == old_order[j - 1]);
                    } else if i == p {
                        assert(order@[j] == old_order[j - 1]);
                    } else {
                        assert(order@[i] == old_order[i - 1] && order@[j] == old_order[j - 1]);
                    }
                }
                assert forall|i: int| 0 <= i < order@.len() implies (#[trigger] order@[i]) < k + 1 by {
                    if i < p {
                        assert(order@[i] == old_order[i]);
                    } else if i > p {
                        assert(order@[i] == old_order[i - 1]);
                    }
                }
            }
            k = k + 1;
        }
        let mut entries: Vec<(&String, &MetadataValue)> = Vec::new();
        let mut i: usize = 0;
        while i < order.len()
            invariant
                keys == self.entries@,
                keys_distinct(keys),
                order@.len() == keys.len(),
                forall|m: int| 0 <= m < order@.len() ==> (#[trigger] order@[m]) < keys.len(),
                i <= order@.len(),
                entries@.len() == i,
                forall|m: int|
                    0 <= m < i ==> (#[trigger] entries@[m]).0@ == keys[order@[m] as int].0@ && *entries@[m].1
                        == keys[order@[m] as int].1,
            decreases order@.len() - i,
        {
            let entry = &self.entries[order[i]];
            entries.push((&entry.0, &entry.1));
            i = i + 1;
        }
        proof {
            assert forall|m: int| 0 <= m < entries@.len() implies self@.contains_key(
                (#[trigger] entries@[m]).0@,
            ) && self@[entries@[m].0@] == *entries@[m].1 by {
                lemma_entry_map_value(keys, order@[m] as int);
            }
            assert forall|m: int, j: int| 0 <= m < j < entries@.len() implies text_leq(
                (#[trigger] entries@[m]).0@,
                (#[trigger] entries@[j]).0@,
            ) && entries@[m].0@ != entries@[j].0@ by {
                assert(text_leq(keys[order@[m] as int].0@, keys[order@[j] as int].0@));
                assert(order@[m] != order@[j]);
                if order@[m] < order@[j] {
                    assert(keys[order@[m] as int].0@ != keys[order@[j] as int].0@);
                } else {
                    assert(keys[order@[j] as int].0@ != keys[order@[m] as int].0@);
                }
            }
        }
        entries
    }

    /// Sets the value of a key, giving back the value it replaced.
    pub fn insert(&mut self, key: String, value: MetadataValue) -> (previous: Option<MetadataValue>)
        ensures
            final(self)@ == old(self)@.insert(key@, value),
            previous == (if old(self)@.contains_key(key@) { Some(old(self)@[key@]) } else { None }),
    {
        proof {
            use_type_invariant(&*self);
        }
        let mut i: usize = 0;
        while i < self.entries.len()
            invariant
                i <= self.entries@.len(),
                self.entries@ == old(self).entries@,
                keys_distinct(self.entries@),
                forall|j: int| 0 <= j < i ==> #[trigger] self.entries@[j].0@ != key@,
            decreases self.entries@.len() - i,
        {
            if text_equals(self.entries[i].0.as_str(), key.as_str()) {
                let ghost before = self.entries@;
                proof {
                    lemma_entry_map_value(before, i as int);
                    lemma_entry_map_replace(before, i as int, (key, value));
                }
                let mut entries = Vec::new();
                std::mem::swap(&mut entries, &mut self.entries);
                let mut entry = (key, value);
                std::mem::swap(&mut entries[i], &mut entry);
                self.entries = entries;
                return Some(entry.1);
            }
            i = i + 1;
        }
        let ghost before = self.entries@;
        proof {
            lemma_entry_map_keys(before, key@);
        }
        let mut entries = Vec::new();
        std::mem::swap(&mut entries, &mut self.entries);
        entries.push((key, value));
        proof {
            assert(entries@.drop_last() =~= before);
        }
        self.entries = entries;
        None
    }
}

proof fn lemma_entry_map_len(entries: Seq<(String, MetadataValue)>)
    requires
        keys_distinct(entries),
    ensures
        entry_map(entries).dom().finite(),
        entry_map(entries).dom().len() == entries.len(),
    decreases entries.len(),
{
    if entries.len() > 0 {
        let rest = entries.drop_last();
        assert(keys_distinct(rest)) by {
            assert forall|a: int, b: int| 0 <= a < b < rest.len() implies #[trigger] rest[a].0@
                != #[trigger] rest[b].0@ by {
                assert(rest[a] == entries[a] && rest[b] == entries[b]);
            }
        }
        lemma_entry_map_len(rest);
        lemma_entry_map_keys(rest, entries.last().0@);
        if entry_map(rest).contains_key(entries.last().0@) {
            let j = choose|j: int| 0 <= j < rest.len() && #[trigger] rest[j].0@ == entries.last().0@;
            assert(entries[j] == rest[j]);
            assert(false);
        }
    }
}

/// Reading a key after setting it gives the value set, and setting a key
/// leaves every other key as it was (`insert`, then `get`).
pub proof fn metadata_read_after_write(
    before: Map<Seq<char>, MetadataValue>,
    key: Seq<char>,
    value: MetadataValue,
    other: Seq<char>,
)
    ensures
        before.insert(key, value).contains_key(key),
        before.insert(key, value)[key] == value,
        other != key ==> before.insert(key, value).contains_key(other) == before.contains_key(other),
        other != key && before.contains_key(other) ==> before.insert(key, value)[other] == before[other],
{
}

/// Record metadata predicate.
#[derive(Debug)]
pub enum MetadataFilter {
    /// Metadata key must equal the supplied value.
    Equals {
        /// Metadata key to inspect.
        key: String,
        /// Metadata value to compare.
        value: MetadataValue,
    },
    /// Every metadata predicate must match.
    All(Vec<MetadataFilter>),
}

/// Whether metadata satisfies a predicate: an `Equals` holds when the key is
/// present with an equal value, an `All` when each of its predicates holds.
pub open spec fn filter_holds(filter: MetadataFilter, metadata: Map<Seq<char>, MetadataValue>) -> bool
    decreases filter,
{
    match filter {
        MetadataFilter::Equals { key, value } => metadata.contains_key(key@) && same_value(
            metadata[key@],
            value,
        ),
        MetadataFilter::All(filters) => forall|i: int|
            0 <= i < filters.len() ==> filter_holds(#[trigger] filters@[i], metadata),
    }
}

impl MetadataFilter {
    /// Checks whether metadata satisfies this predicate.
    pub fn matches(&self, metadata: &Metadata) -> (holds: bool)
        ensures
            holds == filter_holds(*self, metadata@),
        decreases self,
    {
        match self {
            MetadataFilter::Equals { key, value } => match metadata.get(key.as_str()) {
                Some(found) => found.equals(value),
                None => false,
            },
            MetadataFilter::All(filters) => {
                let mut i: usize = 0;
                while i < filters.len()
                    invariant
                        i <= filters@.len(),
                        *self == MetadataFilter::All(*filters),
                        forall|j: int| 0 <= j < i ==> filter_holds(#[trigger] filters@[j], metadata@),
                    decreases filters@.len() - i,
                {
                    proof {
                        assert(decreases_to!(*self => self->0));
                        assert(decreases_to!(*filters => filters@));
                        assert(decreases_to!(filters@ => filters@[i as int]));
                    }
                    if !filters[i].matches(metadata) {
                        assert(filter_holds(*self, metadata@) == (forall|j: int|
                            0 <= j < filters@.len() ==> filter_holds(#[trigger] filters@[j], metadata@)));
                        return false;
                    }
                    i = i + 1;
                }
                true
            },
        }
    }
}

/// An equality filter holds exactly when the key is present and its value is
/// the filter's: the same integer, the same boolean, the same text, or an
/// equal float.
pub proof fn equals_filter_compares_values(key: String, value: MetadataValue, metadata: Map<Seq<char>, MetadataValue>)
    ensures
        filter_holds(MetadataFilter::Equals { key, value }, metadata) <==> metadata.contains_key(key@) && match value {
            MetadataValue::Integer(x) => metadata[key@] == MetadataValue::Integer(x),
            MetadataValue::Boolean(x) => metadata[key@] == MetadataValue::Boolean(x),
            MetadataValue::Text(t) => metadata[key@] matches MetadataValue::Text(s) && s@ == t@,
            MetadataValue::Float(f) => metadata[key@] matches MetadataValue::Float(g) && floats_equal(g, f),
        },
{
}

} // verus!
