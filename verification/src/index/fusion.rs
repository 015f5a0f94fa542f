//! Fusion of the ranked result lists of one search into per-record
//! candidates: the reciprocal ranks each record earned, whether a title
//! matched, its distinct matching chunks, and its best chunk.
//!
//! A record's fused score is the sum, over the ranks it earned, of
//! `1 / (60 + rank)`; the ranks are kept here and the score is computed
//! from them where scores are.

use vstd::prelude::*;

use crate::index::candidates::CandidateKey;
use crate::index::preview::CandidateEvidence;
use crate::metadata::Metadata;
use crate::index::rollback::{copy_key, key_view, same_key};
use crate::text::text_equals;

verus! {

/// The priority of dense chunk matches when two best chunks tie on rank.
pub const DENSE_CHUNK_PRIORITY: usize = 0;

/// The priority of lexical chunk matches when two best chunks tie on rank.
pub const TEXT_CHUNK_PRIORITY: usize = 1;

/// One chunk hit of a ranked chunk list.
#[derive(Clone, Debug)]
pub struct ChunkSearchResult {
    /// Collection of the record.
    pub collection: String,
    /// Record id within the collection.
    pub record_id: String,
    /// Chunk id within the record.
    pub chunk_id: String,
    /// Chunk text.
    pub text: String,
}

/// One record hit of a ranked title list.
#[derive(Clone, Debug)]
pub struct RecordSearchResult {
    /// Collection of the record.
    pub collection: String,
    /// Record id within the collection.
    pub record_id: String,
}

/// The best chunk of a candidate: its rank in its list, its list's
/// priority, and its text.
#[derive(Clone, Debug, PartialEq, Eq)]
pub struct BestChunk {
    /// One-based rank of the record in the chunk list.
    pub rank: usize,
    /// Priority of the list.
    pub priority: usize,
    /// Chunk text.
    pub text: String,
}

/// What the fused lists say of one record.
#[derive(Clone, Debug)]
pub struct CandidateAccumulator {
    /// The one-based ranks the record earned, one per list it appears in.
    pub ranks: Vec<usize>,
    /// Whether a title list matched the record.
    pub title_hit: bool,
    /// Texts of the record's distinct matching chunks, in arrival order.
    pub chunks: Vec<String>,
    /// Ids of those chunks.
    pub chunk_ids: Vec<String>,
    /// The record's best chunk.
    pub best_chunk: Option<BestChunk>,
}

/// The plain values of an accumulator: ranks, title hit, chunk texts, chunk
/// ids, best chunk.
pub type CandidateSummary = (Seq<usize>, bool, Seq<Seq<char>>, Seq<Seq<char>>, Option<(usize, usize, Seq<char>)>);

/// The views of some strings.
pub open spec fn texts(strings: Seq<String>) -> Seq<Seq<char>> {
    strings.map_values(|s: String| s@)
}

/// An accumulator's plain values.
pub open spec fn summary(candidate: CandidateAccumulator) -> CandidateSummary {
    (
        candidate.ranks@,
        candidate.title_hit,
        texts(candidate.chunks@),
        texts(candidate.chunk_ids@),
        match candidate.best_chunk {
            Some(best) => Some((best.rank, best.priority, best.text@)),
            None => None,
        },
    )
}

/// The plain values of a record no list has named yet.
pub open spec fn empty_summary() -> CandidateSummary {
    (Seq::empty(), false, Seq::empty(), Seq::empty(), None)
}

/// What a fusion state holds for a record before a list is added.
pub open spec fn prior(state: Map<(Seq<char>, Seq<char>), CandidateAccumulator>, key: (Seq<char>, Seq<char>)) -> CandidateSummary {
    if state.contains_key(key) {
        summary(state[key])
    } else {
        empty_summary()
    }
}

/// The record a chunk hit names.
pub open spec fn chunk_key(hit: ChunkSearchResult) -> (Seq<char>, Seq<char>) {
    (hit.collection@, hit.record_id@)
}

/// The record a title hit names.
pub open spec fn record_key(hit: RecordSearchResult) -> (Seq<char>, Seq<char>) {
    (hit.collection@, hit.record_id@)
}

/// The records a list names, in list order, each as often as it appears.
pub open spec fn chunk_keys(hits: Seq<ChunkSearchResult>) -> Seq<(Seq<char>, Seq<char>)> {
    hits.map_values(|hit: ChunkSearchResult| chunk_key(hit))
}

/// The records a title list names, in list order.
pub open spec fn record_keys(hits: Seq<RecordSearchResult>) -> Seq<(Seq<char>, Seq<char>)> {
    hits.map_values(|hit: RecordSearchResult| record_key(hit))
}

/// The number of distinct records among some keys.
pub open spec fn distinct_count(keys: Seq<(Seq<char>, Seq<char>)>) -> nat
    decreases keys.len(),
{
    if keys.len() == 0 {
        0
    } else {
        distinct_count(keys.drop_last()) + if keys.drop_last().contains(keys.last()) {
            0nat
        } else {
            1nat
        }
    }
}

/// The position of a record's first appearance (the length when it does
/// not appear).
pub open spec fn first_at(keys: Seq<(Seq<char>, Seq<char>)>, key: (Seq<char>, Seq<char>)) -> int
    decreases keys.len(),
{
    if keys.len() == 0 {
        0
    } else if keys.drop_last().contains(key) {
        first_at(keys.drop_last(), key)
    } else if keys.last() == key {
        keys.len() - 1
    } else {
        keys.len() as int
    }
}

/// A record's rank in a list: how many distinct records the list names up
/// to and including the record's first appearance.
pub open spec fn rank_in(keys: Seq<(Seq<char>, Seq<char>)>, key: (Seq<char>, Seq<char>)) -> nat {
    distinct_count(keys.take(first_at(keys, key) + 1))
}

/// The chunk ids and texts a record holds after a chunk list: each hit on
/// the record whose chunk id is new is added, in list order.
pub open spec fn absorbed(
    ids: Seq<Seq<char>>,
    chunk_texts: Seq<Seq<char>>,
    hits: Seq<ChunkSearchResult>,
    key: (Seq<char>, Seq<char>),
) -> (Seq<Seq<char>>, Seq<Seq<char>>)
    decreases hits.len(),
{
    if hits.len() == 0 {
        (ids, chunk_texts)
    } else {
        let before = absorbed(ids, chunk_texts, hits.drop_last(), key);
        let hit = hits.last();
        if chunk_key(hit) == key && !before.0.contains(hit.chunk_id@) {
            (before.0.push(hit.chunk_id@), before.1.push(hit.text@))
        } else {
            before
        }
    }
}

/// The best chunk after one candidate chunk: it replaces the best one when
/// there is none, or when it ranks better, or ranks the same in a list of
/// better (lower) priority.
pub open spec fn better_chunk(
    best: Option<(usize, usize, Seq<char>)>,
    rank: usize,
    priority: usize,
    text: Seq<char>,
) -> Option<(usize, usize, Seq<char>)> {
    match best {
        None => Some((rank, priority, text)),
        Some(current) => if rank < current.0 || (rank == current.0 && priority < current.1) {
            Some((rank, priority, text))
        } else {
            best
        },
    }
}

/// A record's plain values after a chunk list of the given priority that
/// names it: its rank in the list added, new chunks absorbed, and the hit of
/// its first appearance offered as best chunk at that rank.
pub open spec fn after_chunks(
    before: CandidateSummary,
    hits: Seq<ChunkSearchResult>,
    key: (Seq<char>, Seq<char>),
    priority: usize,
) -> CandidateSummary {
    let keys = chunk_keys(hits);
    let rank = rank_in(keys, key) as usize;
    let chunks = absorbed(before.3, before.2, hits, key);
    (
        before.0.push(rank),
        before.1,
        chunks.1,
        chunks.0,
        better_chunk(before.4, rank, priority, hits[first_at(keys, key)].text@),
    )
}

/// A record's plain values after a title list that names it: its rank in
/// the list added, and a title hit.
pub open spec fn after_titles(before: CandidateSummary, keys: Seq<(Seq<char>, Seq<char>)>, key: (Seq<char>, Seq<char>)) -> CandidateSummary {
    (before.0.push(rank_in(keys, key) as usize), true, before.2, before.3, before.4)
}

proof fn lemma_first_at(keys: Seq<(Seq<char>, Seq<char>)>, key: (Seq<char>, Seq<char>))
    ensures
        0 <= first_at(keys, key) <= keys.len(),
        keys.contains(key) <==> first_at(keys, key) < keys.len(),
        keys.contains(key) ==> keys[first_at(keys, key)] == key,
        forall|j: int| 0 <= j < first_at(keys, key) ==> keys[j] != key,
    decreases keys.len(),
{
    if keys.len() > 0 {
        let rest = keys.drop_last();
        lemma_first_at(rest, key);
        assert forall|j: int| 0 <= j < rest.len() implies keys[j] == rest[j] by {}
        if rest.contains(key) {
            let j = choose|j: int| 0 <= j < rest.len() && rest[j] == key;
            assert(keys[j] == key);
        } else if keys.last() == key {
            assert forall|j: int| 0 <= j < first_at(keys, key) implies keys[j] != key by {
                assert(rest[j] == keys[j]);
            }
            assert(keys[keys.len() - 1] == key);
        } else {
            assert forall|j: int| 0 <= j < keys.len() implies keys[j] != key by {
                if j < rest.len() {
                    assert(rest[j] == keys[j]);
                }
            }
        }
    }
}

proof fn lemma_first_at_push(keys: Seq<(Seq<char>, Seq<char>)>, next: (Seq<char>, Seq<char>), key: (Seq<char>, Seq<char>))
    requires
        keys.contains(key),
    ensures
        first_at(keys.push(next), key) == first_at(keys, key),
        keys.push(next).take(first_at(keys, key) + 1) == keys.take(first_at(keys, key) + 1),
        rank_in(keys.push(next), key) == rank_in(keys, key),
{
    assert(keys.push(next).drop_last() =~= keys);
    lemma_first_at(keys, key);
    assert(keys.push(next).take(first_at(keys, key) + 1) =~= keys.take(first_at(keys, key) + 1));
}

proof fn lemma_first_at_new(keys: Seq<(Seq<char>, Seq<char>)>, key: (Seq<char>, Seq<char>))
    requires
        !keys.contains(key),
    ensures
        first_at(keys.push(key), key) == keys.len(),
        rank_in(keys.push(key), key) == distinct_count(keys) + 1,
{
    let pushed = keys.push(key);
    assert(pushed.drop_last() =~= keys);
    assert(pushed.take(keys.len() as int + 1) =~= pushed);
}

proof fn lemma_absorbed_absent(
    ids: Seq<Seq<char>>,
    chunk_texts: Seq<Seq<char>>,
    hits: Seq<ChunkSearchResult>,
    key: (Seq<char>, Seq<char>),
)
    requires
        !chunk_keys(hits).contains(key),
    ensures
        absorbed(ids, chunk_texts, hits, key) == (ids, chunk_texts),
    decreases hits.len(),
{
    if hits.len() > 0 {
        assert(chunk_keys(hits.drop_last()) =~= chunk_keys(hits).drop_last());
        if chunk_keys(hits.drop_last()).contains(key) {
            let j = choose|j: int| 0 <= j < chunk_keys(hits.drop_last()).len() && chunk_keys(hits.drop_last())[j] == key;
            assert(chunk_keys(hits)[j] == key);
        }
        lemma_absorbed_absent(ids, chunk_texts, hits.drop_last(), key);
        assert(chunk_keys(hits)[hits.len() - 1] == chunk_key(hits.last()));
    }
}

proof fn lemma_distinct_count_bound(keys: Seq<(Seq<char>, Seq<char>)>)
    ensures
        distinct_count(keys) <= keys.len(),
    decreases keys.len(),
{
    if keys.len() > 0 {
        lemma_distinct_count_bound(keys.drop_last());
    }
}

/// Whether some candidate keys name a record.
pub open spec fn names(seen: Seq<CandidateKey>, key: (Seq<char>, Seq<char>)) -> bool {
    exists|i: int| 0 <= i < seen.len() && key_view(seen[i]) == key
}

/// Whether a record is among some seen keys (`HashSet::contains`).
pub(crate) fn seen_contains(seen: &Vec<CandidateKey>, key: &CandidateKey) -> (found: bool)
    ensures
        found == names(seen@, key_view(*key)),
{
    let mut i: usize = 0;
    while i < seen.len()
        invariant
            i <= seen@.len(),
            forall|j: int| 0 <= j < i ==> key_view(#[trigger] seen@[j]) != key_view(*key),
        decreases seen@.len() - i,
    {
        if same_key(&seen[i], key) {
            return true;
        }
        i = i + 1;
    }
    false
}

/// Whether some strings hold a text (`HashSet::contains`).
fn contains_text(strings: &Vec<String>, text: &str) -> (found: bool)
    ensures
        found == texts(strings@).contains(text@),
{
    let mut i: usize = 0;
    while i < strings.len()
        invariant
            i <= strings@.len(),
            forall|j: int| 0 <= j < i ==> (#[trigger] strings@[j])@ != text@,
        decreases strings@.len() - i,
    {
        if text_equals(strings[i].as_str(), text) {
            proof {
                assert(texts(strings@)[i as int] == text@);
            }
            return true;
        }
        i = i + 1;
    }
    proof {
        if texts(strings@).contains(text@) {
            let j = choose|j: int| 0 <= j < texts(strings@).len() && texts(strings@)[j] == text@;
            assert(strings@[j]@ == text@);
        }
    }
    false
}

proof fn lemma_texts_push(strings: Seq<String>, s: String)
    ensures
        texts(strings.push(s)) == texts(strings).push(s@),
{
    assert(texts(strings.push(s)) =~= texts(strings).push(s@));
}

/// A record that a list names has a rank in it between one and the number
/// of distinct records the list names.
pub proof fn rank_within_list(keys: Seq<(Seq<char>, Seq<char>)>, key: (Seq<char>, Seq<char>))
    requires
        keys.contains(key),
    ensures
        1 <= rank_in(keys, key) <= distinct_count(keys),
{
    lemma_first_at(keys, key);
    let f = first_at(keys, key);
    let prefix = keys.take(f + 1);
    assert(prefix.drop_last() =~= keys.take(f));
    assert(prefix.last() == key);
    assert(!keys.take(f).contains(key)) by {
        if keys.take(f).contains(key) {
            let j = choose|j: int| 0 <= j < keys.take(f).len() && keys.take(f)[j] == key;
            assert(keys[j] == key);
        }
    }
    lemma_distinct_count_prefix(keys, f + 1);
}

proof fn lemma_distinct_count_prefix(keys: Seq<(Seq<char>, Seq<char>)>, n: int)
    requires
        0 <= n <= keys.len(),
    ensures
        distinct_count(keys.take(n)) <= distinct_count(keys),
    decreases keys.len() - n,
{
    if n < keys.len() {
        lemma_distinct_count_prefix(keys, n + 1);
        assert(keys.take(n + 1).drop_last() =~= keys.take(n));
    } else {
        assert(keys.take(n) =~= keys);
    }
}

/// The candidates of one search: one accumulator per record, in the order
/// the records were first named.
#[derive(Debug)]
pub struct Fusion {
    entries: Vec<(CandidateKey, CandidateAccumulator)>,
}

/// Whether no two entries name the same record.
pub open spec fn keys_distinct(entries: Seq<(CandidateKey, CandidateAccumulator)>) -> bool {
    forall|i: int, j: int|
        0 <= i < j < entries.len() ==> key_view(#[trigger] entries[i].0) != key_view(#[trigger] entries[j].0)
}

/// The accumulator of each record that the entries name.
pub open spec fn fusion_map(entries: Seq<(CandidateKey, CandidateAccumulator)>) -> Map<
    (Seq<char>, Seq<char>),
    CandidateAccumulator,
> {
    Map::new(
        |key: (Seq<char>, Seq<char>)| exists|i: int| 0 <= i < entries.len() && key_view(entries[i].0) == key,
        |key: (Seq<char>, Seq<char>)| entries[choose|i: int| 0 <= i < entries.len() && key_view(entries[i].0) == key].1,
    )
}

proof fn lemma_fusion_lookup(entries: Seq<(CandidateKey, CandidateAccumulator)>, i: int)
    requires
        keys_distinct(entries),
        0 <= i < entries.len(),
    ensures
        fusion_map(entries).contains_key(key_view(entries[i].0)),
        fusion_map(entries)[key_view(entries[i].0)] == entries[i].1,
{
    let key = key_view(entries[i].0);
    assert(exists|j: int| 0 <= j < entries.len() && key_view(entries[j].0) == key);
    let j = choose|j: int| 0 <= j < entries.len() && key_view(entries[j].0) == key;
    if j != i {
        if j < i {
            assert(key_view(entries[j].0) != key_view(entries[i].0));
        } else {
            assert(key_view(entries[i].0) != key_view(entries[j].0));
        }
    }
}

proof fn lemma_fusion_replace(
    entries: Seq<(CandidateKey, CandidateAccumulator)>,
    i: int,
    entry: (CandidateKey, CandidateAccumulator),
)
    requires
        keys_distinct(entries),
        0 <= i < entries.len(),
        key_view(entry.0) == key_view(entries[i].0),
    ensures
        keys_distinct(entries.update(i, entry)),
        fusion_map(entries.update(i, entry)) == fusion_map(entries).insert(key_view(entry.0), entry.1),
{
    let updated = entries.update(i, entry);
    assert forall|a: int, b: int| 0 <= a < b < updated.len() implies key_view(#[trigger] updated[a].0) != key_view(
        #[trigger] updated[b].0,
    ) by {
        assert(key_view(updated[a].0) == key_view(entries[a].0));
        assert(key_view(updated[b].0) == key_view(entries[b].0));
    }
    let left = fusion_map(updated);
    let right = fusion_map(entries).insert(key_view(entry.0), entry.1);
    lemma_fusion_lookup(entries, i);
    assert forall|key: (Seq<char>, Seq<char>)| left.contains_key(key) <==> right.contains_key(key) by {
        if left.contains_key(key) {
            let j = choose|j: int| 0 <= j < updated.len() && key_view(updated[j].0) == key;
            assert(key_view(entries[j].0) == key);
        }
        if fusion_map(entries).contains_key(key) {
            let j = choose|j: int| 0 <= j < entries.len() && key_view(entries[j].0) == key;
            assert(key_view(updated[j].0) == key);
        }
        if key == key_view(entry.0) {
            assert(key_view(updated[i].0) == key);
        }
    }
    assert forall|key: (Seq<char>, Seq<char>)| #[trigger] left.contains_key(key) implies left[key] == right[key] by {
        let j = choose|j: int| 0 <= j < updated.len() && key_view(updated[j].0) == key;
        lemma_fusion_lookup(updated, j);
        if j != i {
            lemma_fusion_lookup(entries, j);
        }
    }
    assert(left =~= right);
}

proof fn lemma_fusion_push(entries: Seq<(CandidateKey, CandidateAccumulator)>, entry: (CandidateKey, CandidateAccumulator))
    requires
        keys_distinct(entries),
        !fusion_map(entries).contains_key(key_view(entry.0)),
    ensures
        keys_distinct(entries.push(entry)),
        fusion_map(entries.push(entry)) == fusion_map(entries).insert(key_view(entry.0), entry.1),
{
    let pushed = entries.push(entry);
    assert forall|i: int, j: int| 0 <= i < j < pushed.len() implies key_view(#[trigger] pushed[i].0) != key_view(
        #[trigger] pushed[j].0,
    ) by {
        if j == entries.len() {
            if key_view(pushed[i].0) == key_view(entry.0) {
                assert(key_view(entries[i].0) == key_view(entry.0));
            }
        } else {
            assert(pushed[i] == entries[i] && pushed[j] == entries[j]);
        }
    }
    let left = fusion_map(pushed);
    let right = fusion_map(entries).insert(key_view(entry.0), entry.1);
    assert forall|k: (Seq<char>, Seq<char>)| left.contains_key(k) <==> right.contains_key(k) by {
        if left.contains_key(k) {
            let j = choose|j: int| 0 <= j < pushed.len() && key_view(pushed[j].0) == k;
            if j < entries.len() {
                assert(key_view(entries[j].0) == k);
            }
        }
        if fusion_map(entries).contains_key(k) {
            let j = choose|j: int| 0 <= j < entries.len() && key_view(entries[j].0) == k;
            assert(key_view(pushed[j].0) == k);
        }
        if k == key_view(entry.0) {
            assert(key_view(pushed[entries.len() as int].0) == k);
        }
    }
    assert forall|k: (Seq<char>, Seq<char>)| #[trigger] left.contains_key(k) implies left[k] == right[k] by {
        let j = choose|j: int| 0 <= j < pushed.len() && key_view(pushed[j].0) == k;
        lemma_fusion_lookup(pushed, j);
        if j < entries.len() {
            assert(pushed[j] == entries[j]);
            lemma_fusion_lookup(entries, j);
        }
    }
    assert(left =~= right);
}

/// An accumulator for a record no list has named yet.
fn empty_candidate() -> (candidate: CandidateAccumulator)
    ensures
        summary(candidate) == empty_summary(),
{
    let candidate = CandidateAccumulator {
        ranks: Vec::new(),
        title_hit: false,
        chunks: Vec::new(),
        chunk_ids: Vec::new(),
        best_chunk: None,
    };
    assert(summary(candidate) =~= empty_summary());
    candidate
}

impl View for Fusion {
    type V = Map<(Seq<char>, Seq<char>), CandidateAccumulator>;

    closed spec fn view(&self) -> Map<(Seq<char>, Seq<char>), CandidateAccumulator> {
        fusion_map(self.entries@)
    }
}

impl Fusion {
    #[verifier::type_invariant]
    spec fn well_formed(self) -> bool {
        keys_distinct(self.entries@)
    }

    /// Takes out the accumulator of a record, leaving an empty one in its
    /// place; a record without one gets one first (`entry(..).or_default()`).
    fn take_entry(&mut self, key: &CandidateKey) -> (taken: (usize, CandidateAccumulator))
        ensures
            taken.0 < final(self).entries@.len(),
            key_view(final(self).entries@[taken.0 as int].0) == key_view(*key),
            summary(taken.1) == prior(old(self)@, key_view(*key)),
            old(self)@.contains_key(key_view(*key)) ==> taken.1 == old(self)@[key_view(*key)],
            final(self)@ == old(self)@.insert(key_view(*key), final(self).entries@[taken.0 as int].1),
    {
        proof {
            use_type_invariant(&*self);
        }
        let mut entries = Vec::new();
        std::mem::swap(&mut entries, &mut self.entries);
        let ghost before = entries@;
        let index = match self_position(&entries, key) {
            Some(i) => i,
            None => {
                let entry = (copy_key(key), empty_candidate());
                proof {
                    lemma_fusion_push(before, entry);
                }
                entries.push(entry);
                entries.len() - 1
            },
        };
        let ghost middle = entries@;
        proof {
            lemma_fusion_lookup(middle, index as int);
        }
        let mut entry = (copy_key(key), empty_candidate());
        std::mem::swap(&mut entries[index], &mut entry);
        proof {
            lemma_fusion_replace(middle, index as int, entries@[index as int]);
            if fusion_map(before).contains_key(key_view(*key)) {
                assert(middle == before);
            }
        }
        self.entries = entries;
        (index, entry.1)
    }

    /// Puts back the accumulator of the record at a position.
    fn put(&mut self, index: usize, candidate: CandidateAccumulator)
        requires
            index < old(self).entries@.len(),
        ensures
            final(self).entries@.len() == old(self).entries@.len(),
            forall|j: int| 0 <= j < final(self).entries@.len() ==> key_view(#[trigger] final(self).entries@[j].0) == key_view(old(self).entries@[j].0),
            final(self)@ == old(self)@.insert(key_view(old(self).entries@[index as int].0), candidate),
    {
        proof {
            use_type_invariant(&*self);
        }
        let mut entries = Vec::new();
        std::mem::swap(&mut entries, &mut self.entries);
        let ghost before = entries@;
        let mut entry = (copy_key(&entries[index].0), candidate);
        std::mem::swap(&mut entries[index], &mut entry);
        proof {
            lemma_fusion_replace(before, index as int, entries@[index as int]);
        }
        self.entries = entries;
    }

    /// Adds a ranked title list: each record it names earns its rank in the
    /// list (repeats of a record are skipped) and a title hit.
    pub fn add_title_results(&mut self, results: Vec<RecordSearchResult>)
        ensures
            forall|key: (Seq<char>, Seq<char>)|
                #[trigger] final(self)@.contains_key(key) <==> old(self)@.contains_key(key) || record_keys(
                    results@,
                ).contains(key),
            forall|key: (Seq<char>, Seq<char>)|
                record_keys(results@).contains(key) ==> summary(#[trigger] final(self)@[key]) == after_titles(
                    prior(old(self)@, key),
                    record_keys(results@),
                    key,
                ),
            forall|key: (Seq<char>, Seq<char>)|
                !record_keys(results@).contains(key) && old(self)@.contains_key(key) ==> #[trigger] final(self)@[key]
                    == old(self)@[key],
    {
        let ghost all = record_keys(results@);
        let mut seen: Vec<CandidateKey> = Vec::new();
        let mut rank: usize = 0;
        let mut i: usize = 0;
        while i < results.len()
            invariant
                i <= results@.len(),
                all == record_keys(results@),
                rank == distinct_count(all.take(i as int)),
                forall|key: (Seq<char>, Seq<char>)| names(seen@, key) <==> all.take(i as int).contains(key),
                forall|key: (Seq<char>, Seq<char>)|
                    #[trigger] self@.contains_key(key) <==> old(self)@.contains_key(key) || all.take(
                        i as int,
                    ).contains(key),
                forall|key: (Seq<char>, Seq<char>)|
                    all.take(i as int).contains(key) ==> summary(#[trigger] self@[key]) == after_titles(
                        prior(old(self)@, key),
                        all.take(i as int),
                        key,
                    ),
                forall|key: (Seq<char>, Seq<char>)|
                    !all.take(i as int).contains(key) && old(self)@.contains_key(key) ==> #[trigger] self@[key]
                        == old(self)@[key],
            decreases results@.len() - i,
        {
            let ghost done = all.take(i as int);
            let ghost next = all.take(i + 1);
            let key = CandidateKey { collection: results[i].collection.clone(), record_id: results[i].record_id.clone() };
            let ghost k = key_view(key);
            proof {
                assert(next =~= done.push(k));
                assert(next.drop_last() =~= done);
                lemma_distinct_count_bound(next);
                assert forall|other: (Seq<char>, Seq<char>)| next.contains(other) <==> done.contains(other) || other
                    == k by {
                    if next.contains(other) && other != k {
                        let j = choose|j: int| 0 <= j < next.len() && next[j] == other;
                        assert(done[j] == other);
                    }
                    if done.contains(other) {
                        let j = choose|j: int| 0 <= j < done.len() && done[j] == other;
                        assert(next[j] == other);
                    }
                    if other == k {
                        assert(next[i as int] == other);
                    }
                }
                assert forall|other: (Seq<char>, Seq<char>)| done.contains(other) implies rank_in(next, other)
                    == rank_in(done, other) by {
                    lemma_first_at_push(done, k, other);
                }
            }
            if seen_contains(&seen, &key) {
                assert(forall|other: (Seq<char>, Seq<char>)| #[trigger] names(seen@, other) <==> next.contains(other));
                i = i + 1;
                continue;
            }
            proof {
                lemma_first_at_new(done, k);
            }
            rank = rank + 1;
            let ghost old_seen = seen@;
            seen.push(copy_key(&key));
            proof {
                assert forall|other: (Seq<char>, Seq<char>)| names(seen@, other) <==> names(old_seen, other) || other
                    == k by {
                    if names(seen@, other) {
                        let j = choose|j: int| 0 <= j < seen@.len() && key_view(seen@[j]) == other;
                        if j < old_seen.len() {
                            assert(old_seen[j] == seen@[j]);
                        }
                    }
                    if names(old_seen, other) {
                        let j = choose|j: int| 0 <= j < old_seen.len() && key_view(old_seen[j]) == other;
                        assert(seen@[j] == old_seen[j]);
                    }
                    if other == k {
                        assert(key_view(seen@[old_seen.len() as int]) == other);
                    }
                }
                assert forall|other: (Seq<char>, Seq<char>)| #[trigger] names(seen@, other) <==> next.contains(other) by {
                    assert(names(old_seen, other) <==> done.contains(other));
                    assert(next.contains(other) <==> done.contains(other) || other == k);
                }
            }
            let (index, mut candidate) = self.take_entry(&key);
            candidate.ranks.push(rank);
            candidate.title_hit = true;
            self.put(index, candidate);
            proof {
                assert(summary(candidate) =~= after_titles(prior(old(self)@, k), next, k));
            }
            i = i + 1;
        }
        proof {
            assert(all.take(results@.len() as int) =~= all);
        }
    }

    /// Adds a ranked chunk list of a given priority: each hit's chunk joins
    /// its record's chunks unless the record already has that chunk id; each
    /// record earns its rank in the list (repeats are skipped for ranking),
    /// and the hit of its first appearance becomes its best chunk when it
    /// ranks better than the best one so far, or the same from a list of
    /// lower priority.
    pub fn add_chunk_results(&mut self, results: Vec<ChunkSearchResult>, priority: usize)
        ensures
            forall|key: (Seq<char>, Seq<char>)|
                #[trigger] final(self)@.contains_key(key) <==> old(self)@.contains_key(key) || chunk_keys(
                    results@,
                ).contains(key),
            forall|key: (Seq<char>, Seq<char>)|
                chunk_keys(results@).contains(key) ==> summary(#[trigger] final(self)@[key]) == after_chunks(
                    prior(old(self)@, key),
                    results@,
                    key,
                    priority,
                ),
            forall|key: (Seq<char>, Seq<char>)|
                !chunk_keys(results@).contains(key) && old(self)@.contains_key(key) ==> #[trigger] final(self)@[key]
                    == old(self)@[key],
    {
        let mut seen: Vec<CandidateKey> = Vec::new();
        let mut rank: usize = 0;
        let mut i: usize = 0;
        while i < results.len()
            invariant
                i <= results@.len(),
                rank == distinct_count(chunk_keys(results@.take(i as int))),
                forall|key: (Seq<char>, Seq<char>)|
                    #[trigger] names(seen@, key) <==> chunk_keys(results@.take(i as int)).contains(key),
                forall|key: (Seq<char>, Seq<char>)|
                    #[trigger] self@.contains_key(key) <==> old(self)@.contains_key(key) || chunk_keys(
                        results@.take(i as int),
                    ).contains(key),
                forall|key: (Seq<char>, Seq<char>)|
                    chunk_keys(results@.take(i as int)).contains(key) ==> summary(#[trigger] self@[key])
                        == after_chunks(prior(old(self)@, key), results@.take(i as int), key, priority),
                forall|key: (Seq<char>, Seq<char>)|
                    !chunk_keys(results@.take(i as int)).contains(key) && old(self)@.contains_key(key)
                        ==> #[trigger] self@[key] == old(self)@[key],
            decreases results@.len() - i,
        {
            let ghost hits = results@.take(i as int);
            let ghost next_hits = results@.take(i + 1);
            let ghost done = chunk_keys(hits);
            let ghost next = chunk_keys(next_hits);
            let hit = &results[i];
            let key = CandidateKey { collection: hit.collection.clone(), record_id: hit.record_id.clone() };
            let ghost k = key_view(key);
            proof {
                assert(next_hits =~= hits.push(*hit));
                assert(next_hits.drop_last() =~= hits);
                assert(next =~= done.push(k));
                assert(next.drop_last() =~= done);
                lemma_distinct_count_bound(next);
                assert forall|other: (Seq<char>, Seq<char>)| next.contains(other) <==> done.contains(other) || other
                    == k by {
                    if next.contains(other) && other != k {
                        let j = choose|j: int| 0 <= j < next.len() && next[j] == other;
                        assert(done[j] == other);
                    }
                    if done.contains(other) {
                        let j = choose|j: int| 0 <= j < done.len() && done[j] == other;
                        assert(next[j] == other);
                    }
                    if other == k {
                        assert(next[i as int] == other);
                    }
                }
                assert forall|other: (Seq<char>, Seq<char>)| done.contains(other) implies rank_in(next, other)
                    == rank_in(done, other) && first_at(next, other) == first_at(done, other) && next_hits[first_at(
                    next,
                    other,
                )] == hits[first_at(done, other)] by {
                    lemma_first_at_push(done, k, other);
                    lemma_first_at(done, other);
                }
                assert forall|other: (Seq<char>, Seq<char>)|
                    other != k implies #[trigger] absorbed(
                        prior(old(self)@, other).3,
                        prior(old(self)@, other).2,
                        next_hits,
                        other,
                    ) == absorbed(prior(old(self)@, other).3, prior(old(self)@, other).2, hits, other) by {}
                if !done.contains(k) {
                    lemma_absorbed_absent(prior(old(self)@, k).3, prior(old(self)@, k).2, hits, k);
                }
            }
            let ghost before_map = self@;
            let (index, mut candidate) = self.take_entry(&key);
            let ghost start = summary(candidate);
            proof {
                if done.contains(k) {
                    assert(start == after_chunks(prior(old(self)@, k), hits, k, priority));
                } else {
                    assert(start == prior(old(self)@, k));
                }
            }
            if !contains_text(&candidate.chunk_ids, hit.chunk_id.as_str()) {
                proof {
                    lemma_texts_push(candidate.chunk_ids@, hit.chunk_id);
                    lemma_texts_push(candidate.chunks@, hit.text);
                }
                candidate.chunk_ids.push(hit.chunk_id.clone());
                candidate.chunks.push(hit.text.clone());
            }
            if seen_contains(&seen, &key) {
                self.put(index, candidate);
                proof {
                    assert(summary(candidate) == after_chunks(prior(old(self)@, k), next_hits, k, priority));
                    assert forall|other: (Seq<char>, Seq<char>)| #[trigger] names(seen@, other) <==> next.contains(
                        other,
                    ) by {
                        assert(next.contains(other) <==> done.contains(other) || other == k);
                    }
                }
                i = i + 1;
                continue;
            }
            proof {
                lemma_first_at_new(done, k);
                assert(next_hits[first_at(next, k)] == *hit);
            }
            rank = rank + 1;
            candidate.ranks.push(rank);
            let replace = match &candidate.best_chunk {
                None => true,
                Some(best) => rank < best.rank || (rank == best.rank && priority < best.priority),
            };
            if replace {
                candidate.best_chunk = Some(BestChunk { rank, priority, text: hit.text.clone() });
            }
            self.put(index, candidate);
            proof {
                assert(summary(candidate) =~= after_chunks(prior(old(self)@, k), next_hits, k, priority));
            }
            let ghost old_seen = seen@;
            seen.push(copy_key(&key));
            proof {
                assert forall|other: (Seq<char>, Seq<char>)| #[trigger] names(seen@, other) <==> next.contains(other) by {
                    if names(seen@, other) {
                        let j = choose|j: int| 0 <= j < seen@.len() && key_view(seen@[j]) == other;
                        if j < old_seen.len() {
                            assert(old_seen[j] == seen@[j]);
                        }
                    }
                    if names(old_seen, other) {
                        let j = choose|j: int| 0 <= j < old_seen.len() && key_view(old_seen[j]) == other;
                        assert(seen@[j] == old_seen[j]);
                    }
                    if other == k {
                        assert(key_view(seen@[old_seen.len() as int]) == other);
                    }
                    assert(names(old_seen, other) <==> done.contains(other));
                    assert(next.contains(other) <==> done.contains(other) || other == k);
                }
            }
            i = i + 1;
        }
        proof {
            assert(results@.take(results@.len() as int) =~= results@);
        }
    }

    /// The accumulator of a record, if a list named it.
    pub fn get(&self, key: &CandidateKey) -> (candidate: Option<&CandidateAccumulator>)
        ensures
            candidate == (if self@.contains_key(key_view(*key)) {
                Some(&self@[key_view(*key)])
            } else {
                None
            }),
    {
        proof {
            use_type_invariant(self);
        }
        match self_position(&self.entries, key) {
            Some(i) => {
                proof {
                    lemma_fusion_lookup(self.entries@, i as int);
                }
                Some(&self.entries[i].1)
            },
            None => None,
        }
    }

    /// The candidates, one per record, in the order the records were first
    /// named.
    pub fn into_entries(self) -> (entries: Vec<(CandidateKey, CandidateAccumulator)>)
        ensures
            keys_distinct(entries@),
            fusion_map(entries@) == self@,
    {
        proof {
            use_type_invariant(&self);
        }
        let Fusion { entries } = self;
        entries
    }

    /// No records yet.
    pub fn new() -> (fusion: Fusion)
        ensures
            fusion@ == Map::<(Seq<char>, Seq<char>), CandidateAccumulator>::empty(),
    {
        let fusion = Fusion { entries: Vec::new() };
        assert(fusion@ =~= Map::<(Seq<char>, Seq<char>), CandidateAccumulator>::empty());
        fusion
    }
}

/// The position of a record among entries, if it is there.
fn self_position(entries: &Vec<(CandidateKey, CandidateAccumulator)>, key: &CandidateKey) -> (index: Option<usize>)
    requires
        keys_distinct(entries@),
    ensures
        match index {
            Some(i) => i < entries@.len() && key_view(entries@[i as int].0) == key_view(*key),
            None => !fusion_map(entries@).contains_key(key_view(*key)),
        },
{
    let mut i: usize = 0;
    while i < entries.len()
        invariant
            i <= entries@.len(),
            forall|j: int| 0 <= j < i ==> key_view(#[trigger] entries@[j].0) != key_view(*key),
        decreases entries@.len() - i,
    {
        if same_key(&entries[i].0, key) {
            return Some(i);
        }
        i = i + 1;
    }
    None
}

/// The evidence of a candidate scored without a reranker: its best chunk,
/// else the title when a title list matched, else none in particular.
pub fn unreranked_evidence(candidate: &CandidateAccumulator) -> (evidence: CandidateEvidence)
    ensures
        match candidate.best_chunk {
            Some(best) => evidence matches CandidateEvidence::Chunk(text) && text@ == best.text@,
            None => evidence == if candidate.title_hit {
                CandidateEvidence::Title
            } else {
                CandidateEvidence::Unmatched
            },
        },
{
    match &candidate.best_chunk {
        Some(best) => CandidateEvidence::Chunk(best.text.clone()),
        None => if candidate.title_hit {
            CandidateEvidence::Title
        } else {
            CandidateEvidence::Unmatched
        },
    }
}

/// A fused candidate with its record read back from storage.
#[derive(Debug)]
pub struct RankingCandidate {
    /// Record id.
    pub record_id: String,
    /// Collection of the record.
    pub collection: String,
    /// Record title.
    pub title: String,
    /// Record content.
    pub content: String,
    /// Record metadata.
    pub metadata: Metadata,
    /// What the fused lists say of the record.
    pub fused: CandidateAccumulator,
}

/// The evidence a reranker pair stands for: which candidate, and which of
/// its evidence.
#[derive(Clone, Debug, PartialEq, Eq)]
pub struct EvidenceRef {
    /// Position of the candidate.
    pub candidate_index: usize,
    /// The evidence scored.
    pub evidence: CandidateEvidence,
}

/// One reranker input: the query, the scored text, the candidate's
/// position, and whether the text is a chunk (else the title).
pub type RerankEntry = (Seq<char>, Seq<char>, int, bool);

/// The reranker inputs of one candidate: each of its chunks, then its title
/// when a title list matched it.
pub open spec fn candidate_entries(query: Seq<char>, candidate: RankingCandidate, index: int) -> Seq<RerankEntry> {
    texts(candidate.fused.chunks@).map_values(|chunk: Seq<char>| (query, chunk, index, true)) + if candidate.fused.title_hit {
        seq![(query, candidate.title@, index, false)]
    } else {
        Seq::empty()
    }
}

/// The reranker inputs of some candidates, candidate by candidate.
pub open spec fn rerank_entries(query: Seq<char>, candidates: Seq<RankingCandidate>) -> Seq<RerankEntry>
    decreases candidates.len(),
{
    if candidates.len() == 0 {
        Seq::empty()
    } else {
        rerank_entries(query, candidates.drop_last()) + candidate_entries(
            query,
            candidates.last(),
            candidates.len() - 1,
        )
    }
}

/// Whether a reranker pair and its evidence reference carry an input.
pub open spec fn carries_entry(pair: (String, String), reference: EvidenceRef, entry: RerankEntry) -> bool {
    &&& pair.0@ == entry.0
    &&& pair.1@ == entry.1
    &&& reference.candidate_index == entry.2
    &&& if entry.3 {
        reference.evidence matches CandidateEvidence::Chunk(text) && text@ == entry.1
    } else {
        reference.evidence == CandidateEvidence::Title
    }
}

/// Builds the reranker inputs of hydrated candidates: for each candidate in
/// order, a (query, chunk) pair per chunk and a (query, title) pair when a
/// title list matched it, each with a reference to its evidence.
pub fn rerank_pairs(text: &str, candidates: &Vec<RankingCandidate>) -> (built: (Vec<(String, String)>, Vec<EvidenceRef>))
    ensures
        built.0@.len() == rerank_entries(text@, candidates@).len(),
        built.1@.len() == built.0@.len(),
        forall|i: int|
            0 <= i < built.0@.len() ==> carries_entry(
                #[trigger] built.0@[i],
                built.1@[i],
                rerank_entries(text@, candidates@)[i],
            ),
{
    let mut pairs: Vec<(String, String)> = Vec::new();
    let mut references: Vec<EvidenceRef> = Vec::new();
    let mut c: usize = 0;
    while c < candidates.len()
        invariant
            c <= candidates@.len(),
            pairs@.len() == rerank_entries(text@, candidates@.take(c as int)).len(),
            references@.len() == pairs@.len(),
            forall|i: int|
                0 <= i < pairs@.len() ==> carries_entry(
                    #[trigger] pairs@[i],
                    references@[i],
                    rerank_entries(text@, candidates@.take(c as int))[i],
                ),
        decreases candidates@.len() - c,
    {
        let candidate = &candidates[c];
        let ghost before = rerank_entries(text@, candidates@.take(c as int));
        let ghost mine = candidate_entries(text@, *candidate, c as int);
        proof {
            assert(candidates@.take(c + 1).drop_last() =~= candidates@.take(c as int));
            assert(candidates@.take(c + 1).last() == *candidate);
        }
        let mut k: usize = 0;
        while k < candidate.fused.chunks.len()
            invariant
                k <= candidate.fused.chunks@.len(),
                pairs@.len() == before.len() + k,
                references@.len() == pairs@.len(),
                mine == candidate_entries(text@, *candidate, c as int),
                forall|i: int|
                    0 <= i < pairs@.len() ==> carries_entry(#[trigger] pairs@[i], references@[i], (before + mine)[i]),
            decreases candidate.fused.chunks@.len() - k,
        {
            let chunk = &candidate.fused.chunks[k];
            proof {
                assert(mine[k as int] == (text@, chunk@, c as int, true));
            }
            pairs.push((text.to_owned(), chunk.clone()));
            references.push(EvidenceRef { candidate_index: c, evidence: CandidateEvidence::Chunk(chunk.clone()) });
            k = k + 1;
        }
        if candidate.fused.title_hit {
            proof {
                assert(mine[k as int] == (text@, candidate.title@, c as int, false));
            }
            pairs.push((text.to_owned(), candidate.title.clone()));
            references.push(EvidenceRef { candidate_index: c, evidence: CandidateEvidence::Title });
        }
        c = c + 1;
    }
    proof {
        assert(candidates@.take(candidates@.len() as int) =~= candidates@);
    }
    (pairs, references)
}

} // verus!
