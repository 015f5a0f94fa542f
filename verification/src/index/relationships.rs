//! Outgoing record relationships, read from the graph edges around a record
//! and returned in a stable order.

use vstd::prelude::*;
use vstd::relations::{sorted_by, total_ordering};
use vstd::seq_lib::{lemma_multiset_commutative, lemma_sorted_unique};

use crate::index::graph::{
    collection_from_labels, first_collection, graph_token, label_views, labels_agree, labels_match,
    predicate_chars, record_label_chars, record_labels, record_labels_name_collection,
    relationship_predicate, relationship_predicate_round_trip, token_chars, RELATIONSHIP_TYPE_PREFIX,
};
use crate::index::types::RecordRelationship;
use crate::text::{lemma_text_leq_total, text_equals, text_le, text_leq};

verus! {

broadcast use vstd::seq_lib::group_to_multiset_ensures;

/// A graph edge as the graph store reports it.
#[derive(Clone, Debug, PartialEq, Eq)]
pub struct GraphEdge {
    /// Labels of the source node.
    pub source_labels: Vec<String>,
    /// Id of the source node.
    pub source: String,
    /// Edge type.
    pub predicate: String,
    /// Id of the target node.
    pub target: String,
    /// Labels of the target node.
    pub target_labels: Vec<String>,
}

/// A relationship as plain values, in sort order: target collection, target
/// record id, predicate.
pub open spec fn relationship_key(relationship: RecordRelationship) -> (Seq<char>, Seq<char>, Seq<char>) {
    (relationship.collection@, relationship.record_id@, relationship.predicate@)
}

/// The order of relationships: by collection, then record id, then
/// predicate, each in text order.
pub open spec fn key_leq(x: (Seq<char>, Seq<char>, Seq<char>), y: (Seq<char>, Seq<char>, Seq<char>)) -> bool {
    if x.0 != y.0 {
        text_leq(x.0, y.0)
    } else if x.1 != y.1 {
        text_leq(x.1, y.1)
    } else {
        text_leq(x.2, y.2)
    }
}

/// The relationship order, as a relation.
pub open spec fn relationship_order() -> spec_fn(
    (Seq<char>, Seq<char>, Seq<char>),
    (Seq<char>, Seq<char>, Seq<char>),
) -> bool {
    |x: (Seq<char>, Seq<char>, Seq<char>), y: (Seq<char>, Seq<char>, Seq<char>)| key_leq(x, y)
}

/// The relationship order is a total order.
pub proof fn lemma_relationship_order_total()
    ensures
        total_ordering(relationship_order()),
{
    lemma_text_leq_total();
    let r = relationship_order();
    assert forall|x: (Seq<char>, Seq<char>, Seq<char>), y: (Seq<char>, Seq<char>, Seq<char>)|
        #[trigger] r(x, y) && #[trigger] r(y, x) implies x == y by {
        assert(x.0 == y.0);
        assert(x.1 == y.1);
        assert(x.2 == y.2);
    }
    assert forall|
        x: (Seq<char>, Seq<char>, Seq<char>),
        y: (Seq<char>, Seq<char>, Seq<char>),
        z: (Seq<char>, Seq<char>, Seq<char>),
    | #[trigger] r(x, y) && #[trigger] r(y, z) implies r(x, z) by {
        if x.0 != y.0 && y.0 != z.0 && x.0 == z.0 {
            assert(text_leq(x.0, y.0) && text_leq(y.0, x.0));
        }
        if x.0 == y.0 && y.0 == z.0 && x.1 != y.1 && y.1 != z.1 && x.1 == z.1 {
            assert(text_leq(x.1, y.1) && text_leq(y.1, x.1));
        }
    }
    assert forall|x: (Seq<char>, Seq<char>, Seq<char>)| #[trigger] r(x, x) by {}
    assert forall|x: (Seq<char>, Seq<char>, Seq<char>), y: (Seq<char>, Seq<char>, Seq<char>)|
        #[trigger] r(x, y) || #[trigger] r(y, x) by {}
}

/// Whether one relationship comes before or equals another.
pub fn relationship_le(left: &RecordRelationship, right: &RecordRelationship) -> (le: bool)
    ensures
        le == key_leq(relationship_key(*left), relationship_key(*right)),
{
    if !text_equals(left.collection.as_str(), right.collection.as_str()) {
        return text_le(left.collection.as_str(), right.collection.as_str());
    }
    if !text_equals(left.record_id.as_str(), right.record_id.as_str()) {
        return text_le(left.record_id.as_str(), right.record_id.as_str());
    }
    text_le(left.predicate.as_str(), right.predicate.as_str())
}

/// The keys of a run of relationships.
pub open spec fn relationship_keys(relationships: Seq<RecordRelationship>) -> Seq<(Seq<char>, Seq<char>, Seq<char>)> {
    relationships.map_values(|r: RecordRelationship| relationship_key(r))
}

/// Sorts relationships by target collection, target record id and
/// predicate.
pub fn sort_relationships(items: Vec<RecordRelationship>) -> (sorted: Vec<RecordRelationship>)
    ensures
        relationship_keys(sorted@) == relationship_keys(items@).sort_by(relationship_order()),
{
    let ghost input_keys = relationship_keys(items@);
    let ghost order = relationship_order();
    proof {
        lemma_relationship_order_total();
    }
    let mut pending = items;
    let mut sorted: Vec<RecordRelationship> = Vec::new();
    while pending.len() > 0
        invariant
            total_ordering(order),
            order == relationship_order(),
            sorted_by(relationship_keys(sorted@), order),
            relationship_keys(sorted@).to_multiset().add(relationship_keys(pending@).to_multiset())
                == input_keys.to_multiset(),
        decreases pending@.len(),
    {
        let ghost before_pending = pending@;
        let item = pending.pop().unwrap();
        proof {
            assert(before_pending =~= pending@.push(item));
            assert(relationship_keys(before_pending) =~= relationship_keys(pending@).push(
                relationship_key(item),
            ));
        }
        let mut position: usize = 0;
        while position < sorted.len() && relationship_le(&sorted[position], &item)
            invariant
                position <= sorted@.len(),
                forall|k: int|
                    0 <= k < position ==> key_leq(
                        #[trigger] relationship_key(sorted@[k]),
                        relationship_key(item),
                    ),
            decreases sorted@.len() - position,
        {
            position = position + 1;
        }
        let ghost keys = relationship_keys(sorted@);
        let ghost new_key = relationship_key(item);
        proof {
            if position < sorted@.len() {
                assert(!key_leq(keys[position as int], new_key));
                assert(order(new_key, keys[position as int]) || order(keys[position as int], new_key));
            }
        }
        sorted.insert(position, item);
        proof {
            let inserted = relationship_keys(sorted@);
            assert(inserted =~= keys.insert(position as int, new_key));
            assert forall|i: int, j: int| 0 <= i < j < inserted.len() implies #[trigger] order(
                inserted[i],
                inserted[j],
            ) by {
                if j < position {
                    assert(inserted[i] == keys[i] && inserted[j] == keys[j]);
                } else if j == position {
                    assert(inserted[i] == keys[i]);
                    assert(key_leq(relationship_key(sorted@[i]), new_key));
                } else if i < position {
                    assert(inserted[i] == keys[i] && inserted[j] == keys[j - 1]);
                    if j - 1 > i {
                        assert(order(keys[i], keys[j - 1]));
                    }
                } else if i == position {
                    assert(inserted[j] == keys[j - 1]);
                    assert(order(new_key, keys[position as int]));
                    if j - 1 > position {
                        assert(order(keys[position as int], keys[j - 1]));
                    }
                } else {
                    assert(inserted[i] == keys[i - 1] && inserted[j] == keys[j - 1]);
                    assert(order(keys[i - 1], keys[j - 1]));
                }
            }
        }
    }
    proof {
        assert(relationship_keys(pending@) =~= Seq::empty());
        assert(relationship_keys(sorted@).to_multiset() =~= input_keys.to_multiset());
        input_keys.lemma_sort_by_ensures(order);
        lemma_sorted_unique(relationship_keys(sorted@), input_keys.sort_by(order), order);
    }
    sorted
}

/// Whether an edge leaves the record `record_id` of `collection`.
pub open spec fn leaves_record(edge: GraphEdge, collection: Seq<char>, record_id: Seq<char>) -> bool {
    edge.source@ == record_id && labels_agree(
        label_views(edge.source_labels@),
        record_label_chars(collection),
    )
}

/// The edges that leave the record, in order.
pub open spec fn outgoing_edges(edges: Seq<GraphEdge>, collection: Seq<char>, record_id: Seq<char>) -> Seq<GraphEdge> {
    edges.filter(|edge: GraphEdge| leaves_record(edge, collection, record_id))
}

/// The relationship an edge stands for, when its target names a collection.
pub open spec fn edge_key(edge: GraphEdge) -> Option<(Seq<char>, Seq<char>, Seq<char>)> {
    match first_collection(label_views(edge.target_labels@)) {
        Some(collection) => Some((collection, edge.target@, predicate_chars(edge.predicate@))),
        None => None,
    }
}

/// The message for an edge whose target has no collection label.
pub open spec fn missing_collection_message() -> Seq<char> {
    "relationship target missing collection label"@
}

/// Reads the outgoing relationships of one record from the edges around
/// it: edges from the record, as labelled for its collection, each turned
/// into the target's collection, the target id and the public predicate,
/// sorted. An outgoing edge whose target has no collection label fails the
/// read.
pub fn relationships(edges: &Vec<GraphEdge>, collection: &str, record_id: &str) -> (found: Result<
    Vec<RecordRelationship>,
    String,
>)
    ensures
        found is Err <==> exists|i: int|
            0 <= i < outgoing_edges(edges@, collection@, record_id@).len() && (#[trigger] edge_key(
                outgoing_edges(edges@, collection@, record_id@)[i],
            )) is None,
        found matches Err(message) ==> message@ == missing_collection_message(),
        found matches Ok(list) ==> relationship_keys(list@) == outgoing_edges(
            edges@,
            collection@,
            record_id@,
        ).map_values(|edge: GraphEdge| edge_key(edge)->0).sort_by(relationship_order()),
{
    let labels = record_labels(collection);
    let mut found: Vec<RecordRelationship> = Vec::new();
    let mut i: usize = 0;
    while i < edges.len()
        invariant
            i <= edges@.len(),
            label_views(labels@) == record_label_chars(collection@),
            forall|k: int|
                0 <= k < outgoing_edges(edges@.take(i as int), collection@, record_id@).len() ==> (
                #[trigger] edge_key(outgoing_edges(edges@.take(i as int), collection@, record_id@)[k]))
                    is Some,
            relationship_keys(found@) == outgoing_edges(
                edges@.take(i as int),
                collection@,
                record_id@,
            ).map_values(|edge: GraphEdge| edge_key(edge)->0),
        decreases edges@.len() - i,
    {
        let edge = &edges[i];
        let ghost before = edges@.take(i as int);
        let ghost selected = outgoing_edges(before, collection@, record_id@);
        proof {
            assert(edges@.take(i + 1) =~= before.push(*edge));
            before.lemma_filter_push(*edge, |e: GraphEdge| leaves_record(e, collection@, record_id@));
        }
        if text_equals(edge.source.as_str(), record_id) && labels_match(&edge.source_labels, &labels) {
            let target_collection = match collection_from_labels(&edge.target_labels) {
                Some(c) => c,
                None => {
                    proof {
                        let grown = outgoing_edges(edges@.take(i + 1), collection@, record_id@);
                        assert(grown == selected.push(*edge));
                        assert(grown[selected.len() as int] == *edge);
                        lemma_outgoing_prefix(edges@, collection@, record_id@, i + 1);
                        let all = outgoing_edges(edges@, collection@, record_id@);
                        assert(all[selected.len() as int] == *edge);
                        assert(edge_key(all[selected.len() as int]) is None);
                    }
                    return Err("relationship target missing collection label".to_owned());
                },
            };
            let relationship = RecordRelationship {
                predicate: relationship_predicate(edge.predicate.as_str()),
                record_id: edge.target.clone(),
                collection: target_collection,
            };
            let ghost old_found = found@;
            proof {
                assert(edge_key(*edge) == Some(relationship_key(relationship)));
            }
            found.push(relationship);
            proof {
                let grown = outgoing_edges(edges@.take(i + 1), collection@, record_id@);
                assert(grown == selected.push(*edge));
                assert(relationship_keys(found@) =~= relationship_keys(old_found).push(
                    relationship_key(relationship),
                ));
                assert(grown.map_values(|e: GraphEdge| edge_key(e)->0) =~= selected.map_values(
                    |e: GraphEdge| edge_key(e)->0,
                ).push(edge_key(*edge)->0));
                assert(relationship_keys(found@) =~= grown.map_values(
                    |e: GraphEdge| edge_key(e)->0,
                ));
                assert forall|k: int| 0 <= k < grown.len() implies (#[trigger] edge_key(grown[k])) is Some by {
                    if k < selected.len() {
                        assert(grown[k] == selected[k]);
                    }
                }
            }
        } else {
            proof {
                assert(outgoing_edges(edges@.take(i + 1), collection@, record_id@) == selected);
            }
        }
        i = i + 1;
    }
    proof {
        assert(edges@.take(edges@.len() as int) =~= edges@);
    }
    Ok(sort_relationships(found))
}

/// The outgoing edges of a prefix of the edges are a prefix of all outgoing
/// edges.
proof fn lemma_outgoing_prefix(edges: Seq<GraphEdge>, collection: Seq<char>, record_id: Seq<char>, n: int)
    requires
        0 <= n <= edges.len(),
    ensures
        outgoing_edges(edges.take(n), collection, record_id).len() <= outgoing_edges(
            edges,
            collection,
            record_id,
        ).len(),
        forall|k: int|
            0 <= k < outgoing_edges(edges.take(n), collection, record_id).len() ==> #[trigger] outgoing_edges(
                edges.take(n),
                collection,
                record_id,
            )[k] == outgoing_edges(edges, collection, record_id)[k],
    decreases edges.len() - n,
{
    if n < edges.len() {
        lemma_outgoing_prefix(edges, collection, record_id, n + 1);
        let before = edges.take(n);
        assert(edges.take(n + 1) =~= before.push(edges[n]));
        before.lemma_filter_push(edges[n], |e: GraphEdge| leaves_record(e, collection, record_id));
        let short = outgoing_edges(before, collection, record_id);
        let long = outgoing_edges(edges.take(n + 1), collection, record_id);
        assert forall|k: int| 0 <= k < short.len() implies #[trigger] short[k] == outgoing_edges(
            edges,
            collection,
            record_id,
        )[k] by {
            assert(short[k] == long[k]);
        }
    } else {
        assert(edges.take(n) =~= edges);
    }
}

/// Whether an edge is the one written for a relationship of the record
/// `record_id` of `collection`.
pub open spec fn edge_written_for(
    edge: GraphEdge,
    collection: Seq<char>,
    record_id: Seq<char>,
    relationship: RecordRelationship,
) -> bool {
    &&& label_views(edge.source_labels@) == record_label_chars(collection)
    &&& edge.source@ == record_id
    &&& edge.predicate@ == token_chars(RELATIONSHIP_TYPE_PREFIX@, relationship.predicate@)
    &&& edge.target@ == relationship.record_id@
    &&& label_views(edge.target_labels@) == record_label_chars(relationship.collection@)
}

/// Builds the graph edges that store a record's outgoing relationships:
/// from the record's node to each target's node, typed by the encoded
/// predicate.
pub fn relationship_edges(collection: &str, record_id: &str, relationships: &Vec<RecordRelationship>) -> (edges: Vec<GraphEdge>)
    ensures
        edges@.len() == relationships@.len(),
        forall|i: int|
            0 <= i < edges@.len() ==> edge_written_for(
                #[trigger] edges@[i],
                collection@,
                record_id@,
                relationships@[i],
            ),
{
    let mut edges: Vec<GraphEdge> = Vec::new();
    let mut i: usize = 0;
    while i < relationships.len()
        invariant
            i <= relationships@.len(),
            edges@.len() == i,
            forall|k: int|
                0 <= k < i ==> edge_written_for(
                    #[trigger] edges@[k],
                    collection@,
                    record_id@,
                    relationships@[k],
                ),
        decreases relationships@.len() - i,
    {
        let relationship = &relationships[i];
        edges.push(
            GraphEdge {
                source_labels: record_labels(collection),
                source: record_id.to_owned(),
                predicate: graph_token(RELATIONSHIP_TYPE_PREFIX, relationship.predicate.as_str()),
                target: relationship.record_id.clone(),
                target_labels: record_labels(relationship.collection.as_str()),
            },
        );
        i = i + 1;
    }
    edges
}

/// The edges around a record that its relationships are stored in, which
/// a new set of relationships replaces.
pub fn stale_edges(edges: Vec<GraphEdge>, collection: &str, record_id: &str) -> (stale: Vec<GraphEdge>)
    ensures
        stale@ == outgoing_edges(edges@, collection@, record_id@),
{
    let labels = record_labels(collection);
    let ghost all = edges@;
    let mut stale: Vec<GraphEdge> = Vec::new();
    for edge in it: edges
        invariant
            it.seq() == all,
            label_views(labels@) == record_label_chars(collection@),
            stale@ == outgoing_edges(all.take(it.index() as int), collection@, record_id@),
    {
        proof {
            let before = all.take(it.index() as int);
            assert(all.take(it.index() + 1) =~= before.push(edge));
            before.lemma_filter_push(edge, |e: GraphEdge| leaves_record(e, collection@, record_id@));
        }
        if text_equals(edge.source.as_str(), record_id) && labels_match(&edge.source_labels, &labels) {
            stale.push(edge);
        }
    }
    proof {
        assert(all.take(all.len() as int) =~= all);
    }
    stale
}

/// Label sets agree with themselves.
proof fn lemma_labels_agree_self(labels: Seq<Seq<char>>)
    ensures
        labels_agree(labels, labels),
{
    assert forall|i: int| 0 <= i < labels.len() implies labels.contains(#[trigger] labels[i]) by {}
}

/// Reading back what was written: among the edges around a record, those
/// written for its relationships are exactly the ones read as its outgoing
/// relationships (edges that do not leave the record, such as incoming
/// ones, are not), every one of them names its target's collection, and
/// they give the relationships back.
pub proof fn written_relationships_read_back(
    written: Seq<GraphEdge>,
    others: Seq<GraphEdge>,
    collection: Seq<char>,
    record_id: Seq<char>,
    relationships: Seq<RecordRelationship>,
)
    requires
        written.len() == relationships.len(),
        forall|i: int|
            0 <= i < written.len() ==> edge_written_for(#[trigger] written[i], collection, record_id, relationships[i]),
        forall|i: int| 0 <= i < others.len() ==> !leaves_record(#[trigger] others[i], collection, record_id),
    ensures
        outgoing_edges(written + others, collection, record_id) == written,
        forall|i: int| 0 <= i < written.len() ==> (#[trigger] edge_key(written[i])) is Some,
        written.map_values(|edge: GraphEdge| edge_key(edge)->0) == relationship_keys(relationships),
        outgoing_edges(written + others, collection, record_id).map_values(
            |edge: GraphEdge| edge_key(edge)->0,
        ).sort_by(relationship_order()) == relationship_keys(relationships).sort_by(
            relationship_order(),
        ),
{
    let pred = |edge: GraphEdge| leaves_record(edge, collection, record_id);
    assert forall|i: int| 0 <= i < written.len() implies leaves_record(#[trigger] written[i], collection, record_id) by {
        lemma_labels_agree_self(record_label_chars(collection));
    }
    lemma_filter_all(written, pred);
    lemma_filter_none(others, pred);
    Seq::filter_distributes_over_add(written, others, pred);
    assert(written.filter(pred) + others.filter(pred) =~= written);
    assert forall|i: int| 0 <= i < written.len() implies (#[trigger] edge_key(written[i])) is Some && edge_key(
        written[i],
    )->0 == relationship_key(relationships[i]) by {
        record_labels_name_collection(relationships[i].collection@);
        relationship_predicate_round_trip(relationships[i].predicate@);
    }
    assert(written.map_values(|edge: GraphEdge| edge_key(edge)->0) =~= relationship_keys(relationships));
}

/// A filter that keeps every element keeps the sequence.
proof fn lemma_filter_all<A>(s: Seq<A>, pred: spec_fn(A) -> bool)
    requires
        forall|i: int| 0 <= i < s.len() ==> pred(#[trigger] s[i]),
    ensures
        s.filter(pred) == s,
    decreases s.len(),
{
    if s.len() > 0 {
        lemma_filter_all(s.drop_last(), pred);
        assert(pred(s[s.len() - 1]));
        assert(s.drop_last().push(s.last()) =~= s);
        s.drop_last().lemma_filter_push(s.last(), pred);
    } else {
        reveal(Seq::filter);
        assert(s.filter(pred) =~= s);
    }
}

/// A filter that keeps no element leaves nothing.
proof fn lemma_filter_none<A>(s: Seq<A>, pred: spec_fn(A) -> bool)
    requires
        forall|i: int| 0 <= i < s.len() ==> !pred(#[trigger] s[i]),
    ensures
        s.filter(pred) == Seq::<A>::empty(),
    decreases s.len(),
{
    if s.len() > 0 {
        lemma_filter_none(s.drop_last(), pred);
        assert(!pred(s[s.len() - 1]));
        assert(s.drop_last().push(s.last()) =~= s);
        s.drop_last().lemma_filter_push(s.last(), pred);
    } else {
        reveal(Seq::filter);
        assert(s.filter(pred) =~= Seq::<A>::empty());
    }
}

} // verus!
