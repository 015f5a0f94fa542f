use akuna_core::index::candidates::CandidateKey;
use akuna_core::index::expansion::{sort_neighbors, ExpansionCollector};
use akuna_core::index::graph::{graph_token, COLLECTION_LABEL_PREFIX, RECORD_LABEL};
use akuna_core::index::requests::{graph_expansion_neighbor, GraphExpansionNeighbor};
use akuna_core::index::{IndexSearchQuery, Metadata, MetadataFilter, MetadataValue};

fn key(collection: &str, record_id: &str) -> CandidateKey {
    CandidateKey { collection: collection.to_string(), record_id: record_id.to_string() }
}

fn neighbor(collection: &str, record_id: &str, color: &str) -> GraphExpansionNeighbor {
    let mut metadata = Metadata::new();
    metadata.insert("color".to_string(), MetadataValue::Text(color.to_string()));
    GraphExpansionNeighbor { key: key(collection, record_id), metadata }
}

#[test]
fn neighbors_sort_by_collection_then_record() {
    let sorted = sort_neighbors(vec![
        neighbor("docs", "z", "red"),
        neighbor("alpha", "m", "red"),
        neighbor("docs", "b", "red"),
    ]);
    let keys: Vec<CandidateKey> = sorted.into_iter().map(|neighbor| neighbor.key).collect();
    assert_eq!(keys, vec![key("alpha", "m"), key("docs", "b"), key("docs", "z")]);
}

#[test]
fn neighbors_with_equal_records_keep_their_order() {
    let sorted = sort_neighbors(vec![
        neighbor("docs", "b", "first"),
        neighbor("alpha", "m", "red"),
        neighbor("docs", "b", "second"),
        neighbor("docs", "b", "third"),
    ]);
    let colors: Vec<String> = sorted
        .iter()
        .map(|neighbor| match neighbor.metadata.get("color") {
            Some(MetadataValue::Text(color)) => color.clone(),
            _ => String::new(),
        })
        .collect();
    assert_eq!(colors, vec!["red", "first", "second", "third"]);
}

#[test]
fn expansions_take_unseen_neighbors_in_order_up_to_the_cap() {
    let mut collector = ExpansionCollector::new(vec![key("docs", "a")], 1);
    assert!(!collector.is_full());
    collector.add_neighbors(
        &IndexSearchQuery::default(),
        0,
        vec![
            neighbor("docs", "z", "red"),
            neighbor("docs", "b", "red"),
            neighbor("docs", "a", "red"),
            neighbor("other", "c", "red"),
            neighbor("docs", "b", "red"),
        ],
    );
    assert!(collector.is_full());
    collector.add_neighbors(&IndexSearchQuery::default(), 1, vec![neighbor("docs", "y", "red")]);
    assert_eq!(collector.into_expansions(), vec![(key("docs", "b"), 0), (key("docs", "z"), 0)]);
}

#[test]
fn expansions_follow_query_scope_and_filter() {
    let query = IndexSearchQuery {
        collections: vec!["docs".to_string()],
        filter: Some(MetadataFilter::Equals {
            key: "color".to_string(),
            value: MetadataValue::Text("red".to_string()),
        }),
        ..IndexSearchQuery::default()
    };
    let mut collector = ExpansionCollector::new(Vec::new(), 10);
    collector.add_neighbors(
        &query,
        0,
        vec![neighbor("other", "a", "red"), neighbor("docs", "b", "blue"), neighbor("docs", "c", "red")],
    );
    collector.add_neighbors(&query, 1, vec![neighbor("docs", "c", "red"), neighbor("docs", "b", "red")]);
    assert!(!collector.is_full());
    assert_eq!(collector.into_expansions(), vec![(key("docs", "c"), 0), (key("docs", "b"), 1)]);
}

#[test]
fn graph_nodes_become_neighbors_only_when_records() {
    let labels = vec![RECORD_LABEL.to_string(), graph_token(COLLECTION_LABEL_PREFIX, "docs")];
    let Ok(Some(found)) = graph_expansion_neighbor(&labels, "r1".to_string(), Ok(Metadata::new())) else {
        panic!("record node refused");
    };
    assert_eq!(found.key, key("docs", "r1"));
    assert_eq!(found.metadata.len(), 0);

    let not_record = vec![graph_token(COLLECTION_LABEL_PREFIX, "docs")];
    assert!(matches!(graph_expansion_neighbor(&not_record, "r1".to_string(), Err("bad".to_string())), Ok(None)));
    let no_collection = vec![RECORD_LABEL.to_string()];
    assert!(matches!(graph_expansion_neighbor(&no_collection, "r1".to_string(), Ok(Metadata::new())), Ok(None)));
    assert!(matches!(
        graph_expansion_neighbor(&labels, "r1".to_string(), Err("graph record metadata must be an object".to_string())),
        Err(message) if message == "graph record metadata must be an object"
    ));
}
