//! The order in which a failed batch write restores its records.

use vstd::prelude::*;

use crate::index::candidates::{candidate_before, candidate_order_trichotomy, CandidateKey};
use crate::text::{lemma_text_leq_total, text_equals, text_le, text_leq};

verus! {

/// Whether one candidate comes strictly before another.
pub fn key_before(left: &CandidateKey, right: &CandidateKey) -> (before: bool)
    ensures
        before == candidate_before(*left, *right),
{
    if !text_equals(left.collection.as_str(), right.collection.as_str()) {
        return text_le(left.collection.as_str(), right.collection.as_str());
    }
    !text_equals(left.record_id.as_str(), right.record_id.as_str()) && text_le(
        left.record_id.as_str(),
        right.record_id.as_str(),
    )
}

/// Whether two candidates name the same record.
pub fn same_key(left: &CandidateKey, right: &CandidateKey) -> (same: bool)
    ensures
        same == (key_view(*left) == key_view(*right)),
{
    text_equals(left.collection.as_str(), right.collection.as_str()) && text_equals(
        left.record_id.as_str(),
        right.record_id.as_str(),
    )
}

/// Strict candidate order is transitive.
pub proof fn lemma_candidate_before_transitive(a: CandidateKey, b: CandidateKey, c: CandidateKey)
    requires
        candidate_before(a, b),
        candidate_before(b, c),
    ensures
        candidate_before(a, c),
{
    lemma_text_leq_total();
    if a.collection@ == c.collection@ && a.collection@ != b.collection@ {
        assert(text_leq(a.collection@, b.collection@) && text_leq(b.collection@, a.collection@));
    }
    if a.collection@ == b.collection@ && b.collection@ == c.collection@ && a.record_id@ == c.record_id@ {
        assert(text_leq(a.record_id@, b.record_id@) && text_leq(b.record_id@, a.record_id@));
    }
}

/// A candidate identity as plain values.
pub open spec fn key_view(key: CandidateKey) -> (Seq<char>, Seq<char>) {
    (key.collection@, key.record_id@)
}

/// Whether a run of keys holds an identity.
pub open spec fn holds_identity(keys: Seq<CandidateKey>, identity: (Seq<char>, Seq<char>)) -> bool {
    exists|i: int| 0 <= i < keys.len() && key_view(#[trigger] keys[i]) == identity
}

/// Keys in strictly increasing candidate order (so each identity once).
pub open spec fn strictly_ordered(keys: Seq<CandidateKey>) -> bool {
    forall|i: int, j: int| 0 <= i < j < keys.len() ==> candidate_before(#[trigger] keys[i], #[trigger] keys[j])
}

/// A copy of a candidate key.
pub(crate) fn copy_key(key: &CandidateKey) -> (copy: CandidateKey)
    ensures
        copy == *key,
{
    CandidateKey { collection: key.collection.clone(), record_id: key.record_id.clone() }
}

/// The identities of a record batch, each once, in the order a failed
/// batch restores them: by collection, then record id.
pub fn rollback_order(identities: &Vec<CandidateKey>) -> (keys: Vec<CandidateKey>)
    ensures
        strictly_ordered(keys@),
        forall|i: int| 0 <= i < identities@.len() ==> holds_identity(keys@, key_view(#[trigger] identities@[i])),
        forall|j: int| 0 <= j < keys@.len() ==> holds_identity(identities@, key_view(#[trigger] keys@[j])),
{
    let mut keys: Vec<CandidateKey> = Vec::new();
    let mut n: usize = 0;
    while n < identities.len()
        invariant
            n <= identities@.len(),
            strictly_ordered(keys@),
            forall|i: int| 0 <= i < n ==> holds_identity(keys@, key_view(#[trigger] identities@[i])),
            forall|j: int| 0 <= j < keys@.len() ==> holds_identity(identities@.take(n as int), key_view(#[trigger] keys@[j])),
        decreases identities@.len() - n,
    {
        let identity = &identities[n];
        let mut position: usize = 0;
        while position < keys.len() && key_before(&keys[position], identity)
            invariant
                position <= keys@.len(),
                forall|k: int| 0 <= k < position ==> candidate_before(#[trigger] keys@[k], *identity),
            decreases keys@.len() - position,
        {
            position = position + 1;
        }
        let ghost before = keys@;
        let duplicate = position < keys.len() && same_key(&keys[position], identity);
        proof {
            lemma_text_leq_total();
        }
        if !duplicate {
            proof {
                if position < before.len() {
                    candidate_order_trichotomy(before[position as int], *identity);
                }
            }
            keys.insert(position, copy_key(identity));
            proof {
                let after = keys@;
                assert(after =~= before.insert(position as int, *identity));
                assert forall|i: int, j: int| 0 <= i < j < after.len() implies candidate_before(
                    #[trigger] after[i],
                    #[trigger] after[j],
                ) by {
                    if j < position {
                        assert(after[i] == before[i] && after[j] == before[j]);
                    } else if j == position {
                        assert(after[i] == before[i]);
                    } else if i < position {
                        assert(after[i] == before[i] && after[j] == before[j - 1]);
                        if j - 1 > i {
                            assert(candidate_before(before[i], before[j - 1]));
                        }
                    } else if i == position {
                        assert(after[j] == before[j - 1]);
                        if j - 1 > position {
                            assert(candidate_before(before[position as int], before[j - 1]));
                            lemma_candidate_before_transitive(*identity, before[position as int], before[j - 1]);
                        }
                    } else {
                        assert(after[i] == before[i - 1] && after[j] == before[j - 1]);
                    }
                }
                assert forall|i: int| 0 <= i < n + 1 implies holds_identity(
                    after,
                    key_view(#[trigger] identities@[i]),
                ) by {
                    if i < n {
                        let k = choose|k: int| 0 <= k < before.len() && key_view(before[k]) == key_view(identities@[i]);
                        if k < position {
                            assert(after[k] == before[k]);
                        } else {
                            assert(after[k + 1] == before[k]);
                        }
                    } else {
                        assert(after[position as int] == *identity);
                    }
                }
                assert forall|j: int| 0 <= j < after.len() implies holds_identity(
                    identities@.take(n + 1),
                    key_view(#[trigger] after[j]),
                ) by {
                    let taken = identities@.take(n + 1);
                    if j == position {
                        assert(taken[n as int] == *identity);
                    } else {
                        let b = if j < position { j } else { j - 1 };
                        assert(after[j] == before[b]);
                        let k = choose|k: int| 0 <= k < n && key_view(identities@.take(n as int)[k]) == key_view(before[b]);
                        assert(taken[k] == identities@.take(n as int)[k]);
                    }
                }
            }
        } else {
            proof {
                assert forall|i: int| 0 <= i < n + 1 implies holds_identity(
                    keys@,
                    key_view(#[trigger] identities@[i]),
                ) by {
                    if i == n {
                        assert(key_view(keys@[position as int]) == key_view(*identity));
                    }
                }
                assert forall|j: int| 0 <= j < keys@.len() implies holds_identity(
                    identities@.take(n + 1),
                    key_view(#[trigger] keys@[j]),
                ) by {
                    let k = choose|k: int| 0 <= k < n && key_view(identities@.take(n as int)[k]) == key_view(keys@[j]);
                    assert(identities@.take(n + 1)[k] == identities@.take(n as int)[k]);
                }
            }
        }
        n = n + 1;
    }
    proof {
        assert(identities@.take(identities@.len() as int) =~= identities@);
    }
    keys
}

} // verus!
