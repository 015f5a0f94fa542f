//! Identity and stable order of search candidates.

use std::cmp::Ordering;

use vstd::prelude::*;

use crate::text::{lemma_text_leq_total, text_equals, text_le, text_leq};

verus! {

/// The identity of a search candidate: its collection and record id.
#[derive(Clone, Debug, PartialEq, Eq, Hash)]
pub struct CandidateKey {
    /// Collection of the record.
    pub collection: String,
    /// Record id within the collection.
    pub record_id: String,
}

/// Whether one candidate comes strictly before another: by collection, then
/// by record id, in text order.
pub open spec fn candidate_before(left: CandidateKey, right: CandidateKey) -> bool {
    if left.collection@ != right.collection@ {
        text_leq(left.collection@, right.collection@)
    } else {
        left.record_id@ != right.record_id@ && text_leq(left.record_id@, right.record_id@)
    }
}

/// Orders candidate keys for stable results.
pub fn compare_keys(left: &CandidateKey, right: &CandidateKey) -> (order: Ordering)
    ensures
        (order == Ordering::Equal) == (left.collection@ == right.collection@ && left.record_id@
            == right.record_id@),
        (order == Ordering::Less) == candidate_before(*left, *right),
        (order == Ordering::Greater) == candidate_before(*right, *left),
{
    proof {
        lemma_text_leq_total();
    }
    if !text_equals(left.collection.as_str(), right.collection.as_str()) {
        if text_le(left.collection.as_str(), right.collection.as_str()) {
            return Ordering::Less;
        }
        return Ordering::Greater;
    }
    if text_equals(left.record_id.as_str(), right.record_id.as_str()) {
        return Ordering::Equal;
    }
    if text_le(left.record_id.as_str(), right.record_id.as_str()) {
        Ordering::Less
    } else {
        Ordering::Greater
    }
}

/// Any two candidates are equal or exactly one comes before the other.
pub proof fn candidate_order_trichotomy(left: CandidateKey, right: CandidateKey)
    ensures
        (left.collection@ == right.collection@ && left.record_id@ == right.record_id@) || candidate_before(
            left,
            right,
        ) || candidate_before(right, left),
        !(candidate_before(left, right) && candidate_before(right, left)),
{
    lemma_text_leq_total();
}

} // verus!
