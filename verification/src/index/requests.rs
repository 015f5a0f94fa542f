//! Checks on index requests before any storage is touched, and the sizes
//! a search works with.

use vstd::prelude::*;

use crate::index::candidates::CandidateKey;
use crate::index::error::IndexError;
use crate::index::graph::{collection_from_labels, first_collection, label_views, RECORD_LABEL};
use crate::index::types::{IndexSearchQuery, RecordRelationship};
use crate::metadata::{filter_holds, Metadata};
use crate::text::{text_equals, trim, trim_chars};

verus! {

/// Candidates retrieved per requested result.
pub const CANDIDATE_MULTIPLIER: usize = 4;

/// Fewest candidates a search retrieves.
pub const MIN_CANDIDATES: usize = 20;

/// Relationship expansions allowed per requested result.
pub const EXPANSION_MULTIPLIER: usize = 2;

/// A search needs query text that is not all whitespace.
pub fn validate_search_text(text: &str) -> (result: Result<(), IndexError>)
    ensures
        result is Ok <==> trim_chars(text@).len() > 0,
        result matches Err(error) ==> error is InvalidInput && error->InvalidInput_message@
            == "search text must not be empty"@,
{
    if trim(text).is_empty() {
        return Err(IndexError::InvalidInput { message: "search text must not be empty".to_owned() });
    }
    Ok(())
}

/// The number of candidates a search retrieves for `limit` results:
/// `limit` times the multiplier (saturating), and at least the minimum.
pub fn candidate_budget(limit: usize) -> (budget: usize)
    ensures
        budget == (if limit * CANDIDATE_MULTIPLIER > usize::MAX {
            usize::MAX as int
        } else if limit * CANDIDATE_MULTIPLIER < MIN_CANDIDATES {
            MIN_CANDIDATES as int
        } else {
            limit * CANDIDATE_MULTIPLIER
        }),
{
    let scaled = saturating_times(limit, CANDIDATE_MULTIPLIER);
    if scaled < MIN_CANDIDATES {
        MIN_CANDIDATES
    } else {
        scaled
    }
}

/// The number of relationship expansions a search allows for `limit`
/// results: `limit` times the multiplier, saturating.
pub fn expansion_limit(limit: usize) -> (expansions: usize)
    ensures
        expansions == (if limit * EXPANSION_MULTIPLIER > usize::MAX {
            usize::MAX as int
        } else {
            limit * EXPANSION_MULTIPLIER
        }),
{
    saturating_times(limit, EXPANSION_MULTIPLIER)
}

/// `usize::saturating_mul`: the product, or the largest `usize` when the
/// product does not fit.
fn saturating_times(value: usize, factor: usize) -> (product: usize)
    requires
        factor > 0,
    ensures
        product == (if value * factor > usize::MAX {
            usize::MAX as int
        } else {
            value * factor
        }),
{
    if value > usize::MAX / factor {
        proof {
            assert(value * factor > usize::MAX) by (nonlinear_arith)
                requires
                    value > usize::MAX / factor,
                    factor > 0,
            ;
        }
        usize::MAX
    } else {
        proof {
            assert(value * factor <= usize::MAX) by (nonlinear_arith)
                requires
                    value <= usize::MAX / factor,
                    factor > 0,
            ;
        }
        value * factor
    }
}

/// Records may carry relationships only when the index keeps a graph.
pub fn validate_relationship_storage(graph_enabled: bool, relationships: &Vec<Vec<RecordRelationship>>) -> (result: Result<
    (),
    IndexError,
>)
    ensures
        result is Ok <==> graph_enabled || forall|i: int|
            0 <= i < relationships@.len() ==> (#[trigger] relationships@[i])@.len() == 0,
        result matches Err(error) ==> error is InvalidInput && error->InvalidInput_message@
            == "relationships require graph storage"@,
{
    if graph_enabled {
        return Ok(());
    }
    let mut i: usize = 0;
    while i < relationships.len()
        invariant
            !graph_enabled,
            i <= relationships@.len(),
            forall|k: int| 0 <= k < i ==> (#[trigger] relationships@[k])@.len() == 0,
        decreases relationships@.len() - i,
    {
        if relationships[i].len() > 0 {
            assert((relationships@[i as int])@.len() > 0);
            return Err(
                IndexError::InvalidInput { message: "relationships require graph storage".to_owned() },
            );
        }
        i = i + 1;
    }
    Ok(())
}

/// The message for a relationship whose target record does not exist.
pub open spec fn missing_target_message(
    record_id: Seq<char>,
    collection: Seq<char>,
    target_id: Seq<char>,
    target_collection: Seq<char>,
) -> Seq<char> {
    "relationship target not found for record '"@ + record_id + "' in collection '"@ + collection
        + "': target '"@ + target_id + "' in collection '"@ + target_collection + "'"@
}

/// The error for a relationship of a record whose target does not exist.
pub fn missing_target_error(record_id: &str, collection: &str, relationship: &RecordRelationship) -> (error: IndexError)
    ensures
        error is InvalidInput,
        error->InvalidInput_message@ == missing_target_message(
            record_id@,
            collection@,
            relationship.record_id@,
            relationship.collection@,
        ),
{
    let mut message = "relationship target not found for record '".to_owned();
    message.append(record_id);
    message.append("' in collection '");
    message.append(collection);
    message.append("': target '");
    message.append(relationship.record_id.as_str());
    message.append("' in collection '");
    message.append(relationship.collection.as_str());
    message.append("'");
    IndexError::InvalidInput { message }
}

/// A record reached over a relationship edge, with the metadata that the
/// graph holds for it.
#[derive(Debug)]
pub struct GraphExpansionNeighbor {
    /// Identity of the neighbouring record.
    pub key: CandidateKey,
    /// Its metadata.
    pub metadata: Metadata,
}

/// Whether a collection lies in a search's scope: every collection when the
/// search names none, else one of those it names.
pub open spec fn collection_in_scope(collections: Seq<String>, collection: Seq<char>) -> bool {
    collections.len() == 0 || exists|i: int| 0 <= i < collections.len() && #[trigger] collections[i]@ == collection
}

/// Whether an expansion is in a query's scope: its collection is in the
/// query's scope and its metadata satisfies the query's filter, if any.
pub open spec fn expansion_matches(query: IndexSearchQuery, neighbor: GraphExpansionNeighbor) -> bool {
    collection_in_scope(query.collections@, neighbor.key.collection@) && match query.filter {
        None => true,
        Some(filter) => filter_holds(filter, neighbor.metadata@),
    }
}

/// Checks query scope for one expansion: its collection is in the query's
/// scope and its metadata satisfies the query's filter, if there is one.
pub fn query_matches_expansion(query: &IndexSearchQuery, neighbor: &GraphExpansionNeighbor) -> (matches: bool)
    ensures
        matches == expansion_matches(*query, *neighbor),
{
    let mut in_scope = query.collections.len() == 0;
    let mut i: usize = 0;
    while !in_scope && i < query.collections.len()
        invariant
            i <= query.collections@.len(),
            in_scope == (query.collections@.len() == 0 || exists|j: int|
                0 <= j < i && #[trigger] query.collections@[j]@ == neighbor.key.collection@),
        decreases query.collections@.len() - i,
    {
        if text_equals(query.collections[i].as_str(), neighbor.key.collection.as_str()) {
            in_scope = true;
        }
        i = i + 1;
    }
    if !in_scope {
        return false;
    }
    match &query.filter {
        None => true,
        Some(filter) => filter.matches(&neighbor.metadata),
    }
}

/// Whether some labels hold the record label.
pub open spec fn has_record_label(labels: Seq<String>) -> bool {
    exists|i: int| 0 <= i < labels.len() && #[trigger] labels[i]@ == RECORD_LABEL@
}

/// Builds an expansion neighbour from a graph node's labels, id and decoded
/// metadata: nodes without the record label, or without a collection label,
/// are not records and give none; a record whose metadata did not decode
/// fails with that error.
pub fn graph_expansion_neighbor(labels: &Vec<String>, id: String, metadata: Result<Metadata, String>) -> (neighbor:
    Result<Option<GraphExpansionNeighbor>, String>)
    ensures
        !has_record_label(labels@) ==> neighbor matches Ok(None),
        has_record_label(labels@) && first_collection(label_views(labels@)) is None ==> neighbor matches Ok(None),
        has_record_label(labels@) && first_collection(label_views(labels@)) is Some ==> match metadata {
            Err(message) => neighbor == Err::<Option<GraphExpansionNeighbor>, String>(message),
            Ok(m) => neighbor matches Ok(Some(n)) && Some(n.key.collection@) == first_collection(
                label_views(labels@),
            ) && n.key.record_id == id && n.metadata == m,
        },
{
    let mut found = false;
    let mut i: usize = 0;
    while i < labels.len() && !found
        invariant
            i <= labels@.len(),
            found == exists|j: int| 0 <= j < i && #[trigger] labels@[j]@ == RECORD_LABEL@,
        decreases labels@.len() - i,
    {
        if text_equals(labels[i].as_str(), RECORD_LABEL) {
            found = true;
        }
        i = i + 1;
    }
    if !found {
        return Ok(None);
    }
    let collection = match collection_from_labels(labels) {
        Some(collection) => collection,
        None => {
            return Ok(None);
        },
    };
    match metadata {
        Ok(metadata) => Ok(Some(GraphExpansionNeighbor { key: CandidateKey { collection, record_id: id }, metadata })),
        Err(message) => Err(message),
    }
}

} // verus!
