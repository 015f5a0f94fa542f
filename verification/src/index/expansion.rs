//! Relationship expansion of search results: which neighbouring records of
//! the seed results join them, up to a cap.
//!
//! Seeds are visited in order; the neighbours of each seed are read from
//! the record graph by the caller while the collector wants more, and handed
//! to it. Of a seed's neighbours, those in the query's scope whose records
//! are not yet results or expansions join, in record order, until the cap is
//! reached.

use vstd::prelude::*;

use crate::index::candidates::{candidate_before, candidate_order_trichotomy, CandidateKey};
use crate::index::requests::{expansion_limit, expansion_matches, query_matches_expansion, GraphExpansionNeighbor};
use crate::index::fusion::{names, seen_contains};
use crate::index::rollback::{key_before, key_view, lemma_candidate_before_transitive, strictly_ordered};
use crate::index::types::IndexSearchQuery;

verus! {

broadcast use vstd::seq_lib::group_to_multiset_ensures;

/// Whether one candidate comes before or with another.
pub open spec fn key_le(left: CandidateKey, right: CandidateKey) -> bool {
    !candidate_before(right, left)
}

proof fn lemma_key_le_transitive(a: CandidateKey, b: CandidateKey, c: CandidateKey)
    requires
        key_le(a, b),
        key_le(b, c),
    ensures
        key_le(a, c),
{
    candidate_order_trichotomy(a, b);
    candidate_order_trichotomy(b, c);
    if candidate_before(c, a) {
        if candidate_before(a, b) {
            lemma_candidate_before_transitive(c, a, b);
        }
    }
}

/// Neighbours in record order (records that compare equal in any order).
pub open spec fn in_record_order(neighbors: Seq<GraphExpansionNeighbor>) -> bool {
    forall|i: int, j: int| 0 <= i < j < neighbors.len() ==> key_le(#[trigger] neighbors[i].key, #[trigger] neighbors[j].key)
}

/// Where a stable insertion puts `item` into `sorted`, searching from
/// `from`: before the first neighbour whose record comes after the item's,
/// so after every neighbour with an equal record.
pub open spec fn insertion_point(sorted: Seq<GraphExpansionNeighbor>, item: GraphExpansionNeighbor, from: int) -> int
    decreases sorted.len() - from,
{
    if from >= sorted.len() || candidate_before(item.key, sorted[from].key) {
        from
    } else {
        insertion_point(sorted, item, from + 1)
    }
}

/// The neighbours sorted by record, stably: each is inserted, in input
/// order, after the ones before it whose records do not come after its own,
/// so neighbours with equal records keep their input order.
pub open spec fn stable_sort(neighbors: Seq<GraphExpansionNeighbor>) -> Seq<GraphExpansionNeighbor>
    decreases neighbors.len(),
{
    if neighbors.len() == 0 {
        Seq::empty()
    } else {
        let sorted = stable_sort(neighbors.drop_last());
        sorted.insert(insertion_point(sorted, neighbors.last(), 0), neighbors.last())
    }
}

/// Sorts neighbours by record, stably (`sort_by` on the candidate key
/// order): neighbours with equal records keep their input order.
pub fn sort_neighbors(neighbors: Vec<GraphExpansionNeighbor>) -> (sorted: Vec<GraphExpansionNeighbor>)
    ensures
        sorted@ == stable_sort(neighbors@),
        in_record_order(sorted@),
        sorted@.to_multiset() == neighbors@.to_multiset(),
{
    let ghost input = neighbors@;
    let mut pending = neighbors;
    let mut sorted: Vec<GraphExpansionNeighbor> = Vec::new();
    let ghost mut taken: int = 0;
    while pending.len() > 0
        invariant
            0 <= taken <= input.len(),
            pending@ == input.skip(taken),
            sorted@ == stable_sort(input.take(taken)),
            in_record_order(sorted@),
            sorted@.to_multiset().add(pending@.to_multiset()) == input.to_multiset(),
        decreases pending@.len(),
    {
        let ghost before_pending = pending@;
        let item = pending.remove(0);
        proof {
            assert(before_pending =~= seq![item] + pending@);
            assert(pending@ =~= input.skip(taken + 1));
            assert(before_pending.to_multiset() =~= pending@.to_multiset().insert(item)) by {
                vstd::seq_lib::lemma_multiset_commutative(seq![item], pending@);
            }
        }
        let mut position: usize = 0;
        while position < sorted.len() && !key_before(&item.key, &sorted[position].key)
            invariant
                position <= sorted@.len(),
                forall|k: int| 0 <= k < position ==> key_le(#[trigger] sorted@[k].key, item.key),
                insertion_point(sorted@, item, position as int) == insertion_point(sorted@, item, 0),
            decreases sorted@.len() - position,
        {
            proof {
                candidate_order_trichotomy(item.key, sorted@[position as int].key);
            }
            position = position + 1;
        }
        let ghost old_sorted = sorted@;
        sorted.insert(position, item);
        proof {
            assert(input.take(taken + 1).drop_last() =~= input.take(taken));
            assert(input.take(taken + 1).last() == item);
            taken = taken + 1;
            assert forall|i: int, j: int| 0 <= i < j < sorted@.len() implies key_le(
                #[trigger] sorted@[i].key,
                #[trigger] sorted@[j].key,
            ) by {
                if j < position {
                    assert(sorted@[i] == old_sorted[i] && sorted@[j] == old_sorted[j]);
                } else if j == position {
                    assert(sorted@[i] == old_sorted[i]);
                } else if i < position {
                    assert(sorted@[i] == old_sorted[i] && sorted@[j] == old_sorted[j - 1]);
                    assert(key_le(old_sorted[i].key, item.key));
                    candidate_order_trichotomy(item.key, old_sorted[position as int].key);
                    assert(key_le(item.key, old_sorted[position as int].key));
                    lemma_key_le_transitive(old_sorted[i].key, item.key, old_sorted[position as int].key);
                    if j - 1 > position {
                        lemma_key_le_transitive(
                            old_sorted[i].key,
                            old_sorted[position as int].key,
                            old_sorted[j - 1].key,
                        );
                    }
                } else if i == position {
                    assert(sorted@[j] == old_sorted[j - 1]);
                    candidate_order_trichotomy(item.key, old_sorted[position as int].key);
                    if j - 1 > position {
                        lemma_key_le_transitive(item.key, old_sorted[position as int].key, old_sorted[j - 1].key);
                    }
                } else {
                    assert(sorted@[i] == old_sorted[i - 1] && sorted@[j] == old_sorted[j - 1]);
                }
            }
            assert(sorted@.to_multiset() =~= old_sorted.to_multiset().insert(item));
        }
    }
    proof {
        assert(pending@ =~= Seq::<GraphExpansionNeighbor>::empty());
        assert(taken == input.len());
        assert(input.take(taken) =~= input);
        assert(sorted@.to_multiset() =~= input.to_multiset());
    }
    sorted
}

/// Whether a neighbour may join: it is in the query's scope and its record
/// is not among those already seen.
pub open spec fn joins(query: IndexSearchQuery, seen: Seq<CandidateKey>, neighbor: GraphExpansionNeighbor) -> bool {
    expansion_matches(query, neighbor) && !names(seen, key_view(neighbor.key))
}

/// Whether a record joins through one of some neighbours.
pub open spec fn joining_record(
    query: IndexSearchQuery,
    seen: Seq<CandidateKey>,
    neighbors: Seq<GraphExpansionNeighbor>,
    key: (Seq<char>, Seq<char>),
) -> bool {
    exists|n: int| 0 <= n < neighbors.len() && key_view(#[trigger] neighbors[n].key) == key && joins(query, seen, neighbors[n])
}

/// Whether `added` are the records that join from some neighbours when at
/// most `room` may: joining records only, each once, in record order, and
/// the first of them in that order: a joining record left out means the
/// room is used up by records before it.
pub open spec fn first_joining(
    query: IndexSearchQuery,
    seen: Seq<CandidateKey>,
    neighbors: Seq<GraphExpansionNeighbor>,
    added: Seq<CandidateKey>,
    room: int,
) -> bool {
    &&& strictly_ordered(added)
    &&& added.len() <= room
    &&& forall|i: int| 0 <= i < added.len() ==> joining_record(query, seen, neighbors, key_view(#[trigger] added[i]))
    &&& forall|n: int|
        0 <= n < neighbors.len() && joins(query, seen, #[trigger] neighbors[n]) && !names(
            added,
            key_view(neighbors[n].key),
        ) ==> added.len() == room && forall|i: int| 0 <= i < added.len() ==> candidate_before(added[i], neighbors[n].key)
}

/// The records of some expansions.
pub open spec fn keys_of(expansions: Seq<(CandidateKey, usize)>) -> Seq<CandidateKey> {
    expansions.map_values(|expansion: (CandidateKey, usize)| expansion.0)
}

/// The seeds of some expansions.
pub open spec fn seeds_of(expansions: Seq<(CandidateKey, usize)>) -> Seq<usize> {
    expansions.map_values(|expansion: (CandidateKey, usize)| expansion.1)
}

/// The relationship expansions of one search, collected seed by seed.
#[derive(Debug)]
pub struct ExpansionCollector {
    seen: Vec<CandidateKey>,
    expansions: Vec<(CandidateKey, usize)>,
    max_expansions: usize,
}

impl ExpansionCollector {
    #[verifier::type_invariant]
    spec fn well_formed(self) -> bool {
        self.expansions@.len() <= self.max_expansions
    }

    /// The records seen so far: the results, then the expansions.
    pub closed spec fn seen_keys(self) -> Seq<CandidateKey> {
        self.seen@
    }

    /// The expanded records so far, in order.
    pub closed spec fn expansion_keys(self) -> Seq<CandidateKey> {
        keys_of(self.expansions@)
    }

    /// The seed each expansion came from.
    pub closed spec fn expansion_origins(self) -> Seq<usize> {
        seeds_of(self.expansions@)
    }

    /// The most expansions the search takes.
    pub closed spec fn capacity(self) -> usize {
        self.max_expansions
    }

    /// A collector for a search with `limit` results whose current results
    /// are `results`: no expansions yet, room for the expansion limit.
    pub fn new(results: Vec<CandidateKey>, limit: usize) -> (collector: ExpansionCollector)
        ensures
            collector.seen_keys() == results@,
            collector.expansion_keys().len() == 0,
            collector.capacity() == (if limit * 2 > usize::MAX {
                usize::MAX as int
            } else {
                limit * 2
            }),
    {
        let collector = ExpansionCollector {
            seen: results,
            expansions: Vec::new(),
            max_expansions: expansion_limit(limit),
        };
        assert(collector.expansion_keys() =~= Seq::<CandidateKey>::empty());
        collector
    }

    /// Whether the room for expansions is used up.
    pub fn is_full(&self) -> (full: bool)
        ensures
            full == (self.expansion_keys().len() >= self.capacity()),
    {
        proof {
            use_type_invariant(self);
        }
        self.expansions.len() >= self.max_expansions
    }

    /// Adds the records that join from the neighbours of seed `seed`, in
    /// record order, while there is room.
    pub fn add_neighbors(&mut self, query: &IndexSearchQuery, seed: usize, neighbors: Vec<GraphExpansionNeighbor>)
        ensures
            final(self).capacity() == old(self).capacity(),
            final(self).expansion_keys().len() >= old(self).expansion_keys().len(),
            final(self).expansion_keys().take(old(self).expansion_keys().len() as int) == old(self).expansion_keys(),
            final(self).expansion_origins().take(old(self).expansion_keys().len() as int) == old(self).expansion_origins(),
            forall|i: int|
                old(self).expansion_keys().len() <= i < final(self).expansion_origins().len() ==> #[trigger] final(self).expansion_origins()[i] == seed,
            first_joining(
                *query,
                old(self).seen_keys(),
                neighbors@,
                final(self).expansion_keys().skip(old(self).expansion_keys().len() as int),
                old(self).capacity() - old(self).expansion_keys().len(),
            ),
            forall|key: (Seq<char>, Seq<char>)|
                #![trigger names(final(self).seen_keys(), key)]
                names(final(self).seen_keys(), key) <==> names(old(self).seen_keys(), key) || names(
                    final(self).expansion_keys().skip(old(self).expansion_keys().len() as int),
                    key,
                ),
    {
        proof {
            use_type_invariant(&*self);
        }
        let ghost input = neighbors@;
        let ghost start = self.expansions@.len();
        let ghost old_seen = self.seen@;
        let ghost old_expansions = self.expansions@;
        let max_expansions = self.max_expansions;
        let mut seen = Vec::new();
        std::mem::swap(&mut seen, &mut self.seen);
        let mut expansions = Vec::new();
        std::mem::swap(&mut expansions, &mut self.expansions);
        let sorted = sort_neighbors(neighbors);
        let ghost mut origin: Seq<int> = Seq::empty();
        let mut j: usize = 0;
        while j < sorted.len() && expansions.len() < max_expansions
            invariant
                j <= sorted@.len(),
                in_record_order(sorted@),
                sorted@.to_multiset() == input.to_multiset(),
                max_expansions == old(self).max_expansions,
                start <= expansions@.len() <= max_expansions,
                expansions@.take(start as int) == old_expansions,
                forall|i: int| start <= i < expansions@.len() ==> (#[trigger] expansions@[i]).1 == seed,
                strictly_ordered(keys_of(expansions@).skip(start as int)),
                origin.len() == keys_of(expansions@).skip(start as int).len(),
                forall|i: int|
                    0 <= i < origin.len() ==> 0 <= #[trigger] origin[i] < input.len() && key_view(input[origin[i]].key)
                        == key_view(keys_of(expansions@).skip(start as int)[i]) && joins(*query, old_seen, input[origin[i]]),
                forall|p: int|
                    0 <= p < j && joins(*query, old_seen, #[trigger] sorted@[p]) ==> names(
                        keys_of(expansions@).skip(start as int),
                        key_view(sorted@[p].key),
                    ),
                forall|i: int, p: int|
                    0 <= i < keys_of(expansions@).skip(start as int).len() && j <= p < sorted@.len() ==> key_le(
                        #[trigger] keys_of(expansions@).skip(start as int)[i],
                        #[trigger] sorted@[p].key,
                    ),
                forall|key: (Seq<char>, Seq<char>)|
                    #![trigger names(seen@, key)]
                    names(seen@, key) <==> names(old_seen, key) || names(
                        keys_of(expansions@).skip(start as int),
                        key,
                    ),
            decreases sorted@.len() - j,
        {
            let neighbor = &sorted[j];
            let ghost added = keys_of(expansions@).skip(start as int);
            let ghost seen_before = seen@;
            let ghost exp_before = expansions@;
            let ghost k = key_view(neighbor.key);
            proof {
                assert(sorted@.contains(*neighbor));
                assert(sorted@.to_multiset().count(*neighbor) > 0);
                assert(input.to_multiset().count(*neighbor) > 0);
                assert(input.contains(*neighbor));
            }
            let joined = absorb_neighbor(query, neighbor, seed, &mut seen, &mut expansions);
            proof {
                let new_added = keys_of(expansions@).skip(start as int);
                if joined {
                    let n = choose|n: int| 0 <= n < input.len() && input[n] == *neighbor;
                    assert(key_view(input[n].key) == k);
                    assert(keys_of(expansions@) =~= keys_of(exp_before).push(expansions@.last().0));
                    assert(new_added =~= added.push(expansions@.last().0));
                    assert(expansions@.take(start as int) =~= exp_before.take(start as int));
                    if names(old_seen, k) {
                        assert(names(seen_before, k));
                    }
                    assert forall|i: int| 0 <= i < added.len() implies candidate_before(added[i], neighbor.key) by {
                        assert(key_le(added[i], sorted@[j as int].key));
                        candidate_order_trichotomy(added[i], neighbor.key);
                        if key_view(added[i]) == k {
                            assert(names(added, k));
                            assert(names(seen_before, k));
                        }
                    }
                    assert forall|i: int| start <= i < expansions@.len() implies (#[trigger] expansions@[i]).1 == seed by {
                        if i < exp_before.len() {
                            assert(expansions@[i] == exp_before[i]);
                        }
                    }
                    assert forall|a: int, b: int| 0 <= a < b < new_added.len() implies candidate_before(
                        #[trigger] new_added[a],
                        #[trigger] new_added[b],
                    ) by {
                        if b == added.len() {
                            assert(candidate_before(added[a], neighbor.key));
                        } else {
                            assert(new_added[a] == added[a] && new_added[b] == added[b]);
                        }
                    }
                    assert forall|key: (Seq<char>, Seq<char>)|
                        #![trigger names(seen@, key)]
                        names(seen@, key) <==> names(old_seen, key) || names(new_added, key) by {
                        if names(seen@, key) {
                            let q = choose|q: int| 0 <= q < seen@.len() && key_view(seen@[q]) == key;
                            if q < seen_before.len() {
                                assert(seen_before[q] == seen@[q]);
                            } else {
                                assert(key_view(new_added[added.len() as int]) == key);
                            }
                        }
                        if names(seen_before, key) {
                            let q = choose|q: int| 0 <= q < seen_before.len() && key_view(seen_before[q]) == key;
                            assert(seen@[q] == seen_before[q]);
                        }
                        if names(new_added, key) {
                            let q = choose|q: int| 0 <= q < new_added.len() && key_view(new_added[q]) == key;
                            if q < added.len() {
                                assert(added[q] == new_added[q]);
                                assert(key_view(added[q]) == key);
                                assert(names(added, key));
                                assert(names(seen_before, key) <==> names(old_seen, key) || names(added, key));
                            } else {
                                assert(key_view(seen@[seen_before.len() as int]) == key);
                            }
                        }
                        if names(added, key) {
                            let q = choose|q: int| 0 <= q < added.len() && key_view(added[q]) == key;
                            assert(new_added[q] == added[q]);
                        }
                        if names(old_seen, key) {
                            assert(names(seen_before, key));
                        }
                    }
                    assert forall|p: int|
                        0 <= p < j + 1 && joins(*query, old_seen, #[trigger] sorted@[p]) implies names(
                        new_added,
                        key_view(sorted@[p].key),
                    ) by {
                        if p < j {
                            let q = choose|q: int| 0 <= q < added.len() && key_view(added[q]) == key_view(sorted@[p].key);
                            assert(new_added[q] == added[q]);
                        } else {
                            assert(key_view(new_added[added.len() as int]) == k);
                        }
                    }
                    assert forall|i: int, p: int|
                        0 <= i < new_added.len() && j + 1 <= p < sorted@.len() implies key_le(
                        #[trigger] new_added[i],
                        #[trigger] sorted@[p].key,
                    ) by {
                        if i < added.len() {
                            assert(new_added[i] == added[i]);
                        } else {
                            assert(key_view(new_added[i]) == key_view(sorted@[j as int].key));
                            assert(key_le(sorted@[j as int].key, sorted@[p].key));
                        }
                    }
                    let old_origin = origin;
                    origin = origin.push(n);
                    assert forall|i: int| 0 <= i < origin.len() implies 0 <= #[trigger] origin[i] < input.len() && key_view(
                        input[origin[i]].key,
                    ) == key_view(new_added[i]) && joins(*query, old_seen, input[origin[i]]) by {
                        if i < old_origin.len() {
                            assert(origin[i] == old_origin[i]);
                            assert(new_added[i] == added[i]);
                        } else {
                            assert(origin[i] == n);
                            assert(key_view(new_added[i]) == k);
                        }
                    }
                } else {
                    assert(new_added == added);

                    assert forall|p: int|
                        0 <= p < j + 1 && joins(*query, old_seen, #[trigger] sorted@[p]) implies names(
                        added,
                        key_view(sorted@[p].key),
                    ) by {
                        if p == j {
                            assert(names(seen_before, key_view(sorted@[p].key)));
                        }
                    }
                }
            }
            j = j + 1;
        }
        proof {
            let added = keys_of(expansions@).skip(start as int);
            let room = old(self).max_expansions - start;
            assert forall|i: int| 0 <= i < added.len() implies joining_record(
                *query,
                old_seen,
                input,
                key_view(#[trigger] added[i]),
            ) by {
                let n = origin[i];
                assert(0 <= n < input.len() && key_view(input[n].key) == key_view(added[i]) && joins(
                    *query,
                    old_seen,
                    input[n],
                ));
            }
            assert(added.len() == expansions@.len() - start);
            assert forall|n: int|
                0 <= n < input.len() && joins(*query, old_seen, #[trigger] input[n]) && !names(
                    added,
                    key_view(input[n].key),
                ) implies added.len() == room && forall|i: int| 0 <= i < added.len() ==> candidate_before(added[i], input[n].key) by {
                assert(input.contains(input[n]));
                assert(input.to_multiset().count(input[n]) > 0);
                assert(sorted@.to_multiset().count(input[n]) > 0);
                assert(sorted@.contains(input[n]));
                let p = choose|p: int| 0 <= p < sorted@.len() && sorted@[p] == input[n];
                assert(joins(*query, old_seen, sorted@[p]));
                if p < j {
                    assert(names(added, key_view(sorted@[p].key)));
                }
                assert forall|i: int| 0 <= i < added.len() implies candidate_before(added[i], input[n].key) by {
                    assert(key_le(added[i], sorted@[p].key));
                    candidate_order_trichotomy(added[i], input[n].key);
                    if key_view(added[i]) == key_view(input[n].key) {
                        assert(names(added, key_view(input[n].key)));
                    }
                }
            }
            assert(keys_of(expansions@).take(start as int) =~= old_expansions.map_values(|e: (CandidateKey, usize)| e.0));
            assert(seeds_of(expansions@).take(start as int) =~= old_expansions.map_values(|e: (CandidateKey, usize)| e.1));
            assert(strictly_ordered(added));
            assert(added.len() <= room);
            assert(first_joining(*query, old_seen, input, added, room));
        }
        let ghost final_expansions = expansions@;
        self.seen = seen;
        self.expansions = expansions;
        proof {
            assert(self.expansion_keys() == keys_of(final_expansions));
            assert(old(self).expansion_keys().len() == start);
            assert(old(self).seen_keys() == old_seen);
            assert(old(self).capacity() == old(self).max_expansions);
        }
    }

    /// The expansions, in order, each with the seed it came from.
    pub fn into_expansions(self) -> (expansions: Vec<(CandidateKey, usize)>)
        ensures
            expansions@.map_values(|expansion: (CandidateKey, usize)| expansion.0) == self.expansion_keys(),
            expansions@.map_values(|expansion: (CandidateKey, usize)| expansion.1) == self.expansion_origins(),
    {
        let ExpansionCollector { seen: _, expansions, max_expansions: _ } = self;
        expansions
    }
}

/// Takes one neighbour into the expansions when it joins: in the query's
/// scope, and its record not yet seen.
fn absorb_neighbor(
    query: &IndexSearchQuery,
    neighbor: &GraphExpansionNeighbor,
    seed: usize,
    seen: &mut Vec<CandidateKey>,
    expansions: &mut Vec<(CandidateKey, usize)>,
) -> (joined: bool)
    ensures
        joined == joins(*query, old(seen)@, *neighbor),
        joined ==> final(seen)@.len() == old(seen)@.len() + 1 && final(seen)@.drop_last() == old(seen)@ && key_view(
            final(seen)@.last(),
        ) == key_view(neighbor.key),
        joined ==> final(expansions)@.len() == old(expansions)@.len() + 1 && final(expansions)@.drop_last() == old(
            expansions,
        )@ && key_view(final(expansions)@.last().0) == key_view(neighbor.key) && final(expansions)@.last().1 == seed,
        !joined ==> final(seen)@ == old(seen)@ && final(expansions)@ == old(expansions)@,
{
    if query_matches_expansion(query, neighbor) && !seen_contains(seen, &neighbor.key) {
        seen.push(CandidateKey { collection: neighbor.key.collection.clone(), record_id: neighbor.key.record_id.clone() });
        expansions.push(
            (CandidateKey { collection: neighbor.key.collection.clone(), record_id: neighbor.key.record_id.clone() }, seed),
        );
        proof {
            assert(seen@.drop_last() =~= old(seen)@);
            assert(expansions@.drop_last() =~= old(expansions)@);
        }
        true
    } else {
        false
    }
}

} // verus!
