use akuna_core::chunking::ChunkingOptions;
use akuna_core::embedding::EmbeddingModel;
use akuna_core::index::graph::{
    collection_from_labels, graph_token, graph_value, label_refs, labels_match, record_labels,
    relationship_predicate, COLLECTION_LABEL_PREFIX, RELATIONSHIP_TYPE_PREFIX,
};
use akuna_core::index::manifest::{
    compare, embedding_model_key, parse_embedding_model, validate_manifest, ManifestFile,
    StoredConfig,
};
use akuna_core::index::preview::{
    build_preview, candidate_preview, representative_text, CandidateEvidence, PREVIEW_MAX_CHARS,
};
use akuna_core::index::types::{validate_name, IndexAuditRecord};
use akuna_core::index::{IndexAuditOperation, IndexError, IndexOptions};
use std::collections::BTreeMap;
use akuna_core::index::candidates::{compare_keys, CandidateKey};
use akuna_core::index::relationships::{
    relationship_edges, relationships, sort_relationships, stale_edges, GraphEdge,
};
use akuna_core::index::rollback::rollback_order;
use akuna_core::index::requests::{
    candidate_budget, expansion_limit, missing_target_error, validate_relationship_storage,
    validate_search_text,
};
use akuna_core::index::requests::{query_matches_expansion, GraphExpansionNeighbor};
use akuna_core::index::{IndexSearchQuery, Metadata, MetadataFilter, MetadataValue, RecordRelationship};
use std::cmp::Ordering;

#[test]
fn preview_collapses_short_evidence() {
    assert_eq!(
        build_preview("alpha beta", " alpha\n\n beta\t gamma ").as_deref(),
        Some("alpha beta gamma"),
    );
}

#[test]
fn preview_centers_late_passage() {
    let prefix = (0..90).map(|index| format!("before{index}")).collect::<Vec<_>>().join(" ");
    let suffix = (0..90).map(|index| format!("after{index}")).collect::<Vec<_>>().join(" ");
    let passage = "volcano needle passage";
    let evidence = format!("{prefix} {passage} {suffix}");

    let Some(preview) = build_preview("volcano needle", &evidence) else {
        panic!("preview missing");
    };

    assert!(preview.starts_with('…'));
    assert!(preview.ends_with('…'));
    assert!(preview.contains(passage));
    assert!(!preview.contains("before0 before1"));
    assert!(preview.chars().count() <= PREVIEW_MAX_CHARS);
}

#[test]
fn preview_zero_overlap_uses_head() {
    let evidence = (0..90).map(|index| format!("filler{index}")).collect::<Vec<_>>().join(" ");

    let Some(preview) = build_preview("missing", &evidence) else {
        panic!("preview missing");
    };

    assert!(preview.starts_with("filler0 filler1"));
    assert!(preview.ends_with('…'));
    assert!(preview.chars().count() <= PREVIEW_MAX_CHARS);
}

#[test]
fn preview_unicode_safe() {
    let filler = "🙂 ".repeat(140);
    let evidence = format!("{filler}cafés needle passage {filler}");

    let Some(preview) = build_preview("CAFÉS needle", &evidence) else {
        panic!("preview missing");
    };

    assert!(preview.contains("cafés needle passage"));
    assert!(preview.chars().count() <= PREVIEW_MAX_CHARS);
}

#[test]
fn preview_title_falls_back_to_content() {
    assert_eq!(
        candidate_preview("Volcano Needle Title", &CandidateEvidence::Title, "body preview text")
            .as_deref(),
        Some("body preview text"),
    );
}

#[test]
fn preview_empty_content_without_evidence_is_none() {
    assert_eq!(candidate_preview("Title", &CandidateEvidence::Unmatched, ""), None);
}

#[test]
fn preview_of_whitespace_is_none() {
    assert_eq!(build_preview("query", " \n\t "), None);
    assert_eq!(
        candidate_preview("q", &CandidateEvidence::Chunk("  chunk  text ".to_string()), "body"),
        Some("chunk text".to_string())
    );
}

#[test]
fn reranker_text_joins_title_and_evidence() {
    assert_eq!(
        representative_text("Title", &CandidateEvidence::Chunk("body".to_string())),
        "Title\nbody"
    );
    assert_eq!(representative_text("Title", &CandidateEvidence::Title), "Title");
    assert_eq!(
        representative_text("", &CandidateEvidence::LeadingWindow("lead".to_string())),
        "lead"
    );
}

#[test]
fn graph_tokens_round_trip() {
    let token = graph_token(COLLECTION_LABEL_PREFIX, "project-notes");
    assert_eq!(token, "Collection_70726f6a6563742d6e6f746573");
    assert_eq!(graph_value(COLLECTION_LABEL_PREFIX, &token), Some("project-notes".to_string()));
    assert_eq!(graph_value(COLLECTION_LABEL_PREFIX, "Collection_zz"), None);
    assert_eq!(graph_value(RELATIONSHIP_TYPE_PREFIX, &token), None);
}

#[test]
fn record_labels_name_their_collection() {
    let labels = record_labels("docs");
    assert_eq!(labels[0], "Record");
    assert_eq!(collection_from_labels(&labels), Some("docs".to_string()));
    assert_eq!(label_refs(&labels), vec!["Record", labels[1].as_str()]);
    let reversed = vec![labels[1].clone(), labels[0].clone()];
    assert!(labels_match(&labels, &reversed));
    assert!(!labels_match(&labels, &record_labels("notes")));
}

#[test]
fn relationship_predicates_decode_or_pass_through() {
    let token = graph_token(RELATIONSHIP_TYPE_PREFIX, "related-to");
    assert_eq!(relationship_predicate(&token), "related-to");
    assert_eq!(relationship_predicate("cites"), "cites");
}

#[test]
fn manifest_round_trips_configuration() {
    let config = StoredConfig {
        embedding_model: EmbeddingModel::BgeM3,
        chunking: ChunkingOptions::default(),
        fulltext: true,
        graph: false,
    };
    let manifest = ManifestFile::from_config(&config);
    assert_eq!(manifest.schema_version, 1);
    assert_eq!(manifest.embedding_model, "bge_m3");
    assert_eq!(manifest.into_config(), Ok(config.clone()));
    assert_eq!(validate_manifest(ManifestFile::from_config(&config), &config), Ok(()));
}

#[test]
fn manifest_mismatches_are_reported() {
    let config = StoredConfig::from_options(&IndexOptions::default());
    let mut other = config.clone();
    other.fulltext = false;
    assert_eq!(
        validate_manifest(ManifestFile::from_config(&other), &config),
        Err("index manifest mismatch for fulltext: stored false, requested true".to_string())
    );
    let mut other = config.clone();
    other.embedding_model = EmbeddingModel::MiniLmL6;
    assert_eq!(
        validate_manifest(ManifestFile::from_config(&other), &config),
        Err("index manifest mismatch for embedding_model: stored MiniLmL6, requested MiniLmL12"
            .to_string())
    );
    let mut other = config.clone();
    other.chunking.max_chars = 800;
    assert_eq!(
        validate_manifest(ManifestFile::from_config(&other), &config),
        Err("index manifest mismatch for chunking: stored ChunkingOptions { enabled: true, max_chars: 800, overlap_chars: 200 }, requested ChunkingOptions { enabled: true, max_chars: 1600, overlap_chars: 200 }".to_string())
    );
    let mut manifest = ManifestFile::from_config(&config);
    manifest.schema_version = 2;
    assert_eq!(
        validate_manifest(manifest, &config),
        Err("index manifest mismatch for schema_version: stored 2, requested 1".to_string())
    );
    let mut manifest = ManifestFile::from_config(&config);
    manifest.embedding_model = "unknown".to_string();
    assert_eq!(
        validate_manifest(manifest, &config),
        Err("index manifest has unknown embedding_model \"unknown\"".to_string())
    );
}

#[test]
fn model_keys_parse_back() {
    for model in [
        EmbeddingModel::MiniLmL6,
        EmbeddingModel::MiniLmL12,
        EmbeddingModel::BgeSmallEnV15,
        EmbeddingModel::BgeBaseEnV15,
        EmbeddingModel::BgeLargeEnV15,
        EmbeddingModel::AllMpnetBaseV2,
        EmbeddingModel::BgeM3,
    ] {
        assert_eq!(parse_embedding_model(embedding_model_key(model)), Ok(model));
    }
    assert_eq!(
        parse_embedding_model("mini_lm"),
        Err("index manifest has unknown embedding_model \"mini_lm\"".to_string())
    );
    assert_eq!(compare("true", "true", "graph"), Ok(()));
}

#[test]
fn manifest_and_name_errors() {
    assert_eq!(
        validate_name("../bad"),
        Err(IndexError::InvalidInput {
            message: "index name must not contain path separators".to_string()
        })
    );
    assert_eq!(
        validate_name(""),
        Err(IndexError::InvalidInput { message: "index name must not be empty".to_string() })
    );
    assert_eq!(
        validate_name(".."),
        Err(IndexError::InvalidInput {
            message: "index name must be a plain path segment".to_string()
        })
    );
    assert_eq!(validate_name("default"), Ok(()));
    assert_eq!(validate_name("vector"), Ok(()));
}

#[test]
fn index_errors_display_their_source() {
    assert_eq!(
        IndexError::open("manifest missing".to_string()).to_string(),
        "Index initialization failed: manifest missing"
    );
    assert_eq!(IndexError::write("w".to_string()).to_string(), "Index write failed: w");
    assert_eq!(IndexError::read("r".to_string()).to_string(), "Index read failed: r");
    assert_eq!(IndexError::search("s".to_string()).to_string(), "Index search failed: s");
    let invalid = IndexError::InvalidInput { message: "search text must not be empty".to_string() };
    assert_eq!(invalid.to_string(), "search text must not be empty");
    assert!(invalid.is_invalid_input());
    assert!(!IndexError::open("x".to_string()).is_invalid_input());
}

#[test]
fn index_options_default() {
    let options = IndexOptions::default();
    assert_eq!(options.name, "default");
    assert!(options.path.is_none());
    assert_eq!(options.embedding_model, EmbeddingModel::MiniLmL12);
    assert!(options.fulltext && options.graph);
    assert_eq!(options.chunking, ChunkingOptions::default());
}

#[test]
fn audit_records_name_the_index_engine() {
    let mut outputs = BTreeMap::new();
    outputs.insert("records".to_string(), 2u64);
    let record = IndexAuditRecord::completed(IndexAuditOperation::Add, 5, outputs);
    assert_eq!(record.engine, "index");
    assert_eq!(record.operation, IndexAuditOperation::Add);
    assert_eq!(record.duration_ms, 5);
    assert_eq!(record.outputs.get("records"), Some(&2));
}

#[test]
fn relationships_scope_source_collection() {
    let edges = vec![GraphEdge {
        source_labels: record_labels("notes"),
        source: "same".to_string(),
        predicate: "cites".to_string(),
        target: "same".to_string(),
        target_labels: record_labels("docs"),
    }];

    assert!(relationships(&edges, "docs", "same").unwrap().is_empty());
    assert_eq!(
        relationships(&edges, "notes", "same").unwrap(),
        vec![RecordRelationship {
            predicate: "cites".to_string(),
            record_id: "same".to_string(),
            collection: "docs".to_string(),
        }],
    );
}

#[test]
fn relationships_are_sorted_and_decoded() {
    let edge = |predicate: &str, target: &str, collection: &str| GraphEdge {
        source_labels: record_labels("docs"),
        source: "source".to_string(),
        predicate: graph_token(RELATIONSHIP_TYPE_PREFIX, predicate),
        target: target.to_string(),
        target_labels: record_labels(collection),
    };
    let edges = vec![
        edge("related-to", "b", "notes"),
        edge("cites", "a", "notes"),
        edge("cites", "z", "docs"),
        edge("about", "a", "notes"),
    ];
    let found = relationships(&edges, "docs", "source").unwrap();
    let keys: Vec<(String, String, String)> = found
        .into_iter()
        .map(|r| (r.collection, r.record_id, r.predicate))
        .collect();
    assert_eq!(
        keys,
        vec![
            ("docs".to_string(), "z".to_string(), "cites".to_string()),
            ("notes".to_string(), "a".to_string(), "about".to_string()),
            ("notes".to_string(), "a".to_string(), "cites".to_string()),
            ("notes".to_string(), "b".to_string(), "related-to".to_string()),
        ]
    );
    let mut broken = edges.clone();
    broken[1].target_labels = vec!["Record".to_string()];
    assert_eq!(
        relationships(&broken, "docs", "source"),
        Err("relationship target missing collection label".to_string())
    );
    let unsorted = vec![
        RecordRelationship {
            predicate: "p".to_string(),
            record_id: "é".to_string(),
            collection: "c".to_string(),
        },
        RecordRelationship {
            predicate: "p".to_string(),
            record_id: "z".to_string(),
            collection: "c".to_string(),
        },
    ];
    let sorted = sort_relationships(unsorted);
    assert_eq!(sorted[0].record_id, "z");
    assert_eq!(sorted[1].record_id, "é");
}

#[test]
fn candidate_keys_order_by_collection_then_id() {
    let key = |collection: &str, record_id: &str| CandidateKey {
        collection: collection.to_string(),
        record_id: record_id.to_string(),
    };
    assert_eq!(compare_keys(&key("a", "z"), &key("b", "a")), Ordering::Less);
    assert_eq!(compare_keys(&key("b", "a"), &key("b", "a")), Ordering::Equal);
    assert_eq!(compare_keys(&key("b", "b"), &key("b", "a")), Ordering::Greater);
    assert_eq!(compare_keys(&key("ab", "x"), &key("a", "x")), Ordering::Greater);
}

#[test]
fn search_requests_are_checked() {
    assert_eq!(
        validate_search_text("   "),
        Err(IndexError::InvalidInput { message: "search text must not be empty".to_string() })
    );
    assert_eq!(validate_search_text(" q "), Ok(()));
    assert_eq!(candidate_budget(2), 20);
    assert_eq!(candidate_budget(10), 40);
    assert_eq!(candidate_budget(usize::MAX), usize::MAX);
    assert_eq!(expansion_limit(3), 6);
    let relationship = RecordRelationship {
        predicate: "related-to".to_string(),
        record_id: "missing".to_string(),
        collection: "docs".to_string(),
    };
    assert_eq!(
        validate_relationship_storage(false, &vec![vec![], vec![relationship.clone()]]),
        Err(IndexError::InvalidInput { message: "relationships require graph storage".to_string() })
    );
    assert_eq!(validate_relationship_storage(true, &vec![vec![relationship.clone()]]), Ok(()));
    assert_eq!(validate_relationship_storage(false, &vec![vec![]]), Ok(()));
    assert_eq!(
        missing_target_error("record", "docs", &relationship),
        IndexError::InvalidInput {
            message: "relationship target not found for record 'record' in collection 'docs': target 'missing' in collection 'docs'".to_string()
        }
    );
}

#[test]
fn written_relationships_read_back() {
    let written = vec![
        RecordRelationship {
            predicate: "related-to".to_string(),
            record_id: "target".to_string(),
            collection: "project-notes".to_string(),
        },
        RecordRelationship {
            predicate: "cites".to_string(),
            record_id: "other".to_string(),
            collection: "docs".to_string(),
        },
    ];
    let mut edges = relationship_edges("docs", "source", &written);
    assert_eq!(edges.len(), 2);
    assert_eq!(edges[0].source, "source");
    assert_eq!(edges[0].predicate, graph_token(RELATIONSHIP_TYPE_PREFIX, "related-to"));
    edges.push(GraphEdge {
        source_labels: record_labels("notes"),
        source: "incoming".to_string(),
        predicate: "cites".to_string(),
        target: "source".to_string(),
        target_labels: record_labels("docs"),
    });
    let read = relationships(&edges, "docs", "source").unwrap();
    assert_eq!(read, vec![written[1].clone(), written[0].clone()]);
    let stale = stale_edges(edges, "docs", "source");
    assert_eq!(stale.len(), 2);
    assert!(stale.iter().all(|edge| edge.source == "source"));
}

#[test]
fn rollback_restores_each_record_once_in_order() {
    let key = |collection: &str, record_id: &str| CandidateKey {
        collection: collection.to_string(),
        record_id: record_id.to_string(),
    };
    let batch = vec![key("notes", "b"), key("docs", "z"), key("notes", "a"), key("notes", "b")];
    let order = rollback_order(&batch);
    assert_eq!(order, vec![key("docs", "z"), key("notes", "a"), key("notes", "b")]);
    assert!(rollback_order(&Vec::new()).is_empty());
}

fn neighbor(collection: &str, color: &str) -> GraphExpansionNeighbor {
    let mut metadata = Metadata::new();
    metadata.insert("color".to_string(), MetadataValue::Text(color.to_string()));
    GraphExpansionNeighbor {
        key: CandidateKey { collection: collection.to_string(), record_id: "r".to_string() },
        metadata,
    }
}

#[test]
fn expansion_scope_follows_query_collections_and_filter() {
    let any = IndexSearchQuery::default();
    assert!(query_matches_expansion(&any, &neighbor("docs", "red")));

    let scoped = IndexSearchQuery {
        collections: vec!["notes".to_string(), "docs".to_string()],
        ..IndexSearchQuery::default()
    };
    assert!(query_matches_expansion(&scoped, &neighbor("docs", "red")));
    assert!(!query_matches_expansion(&scoped, &neighbor("other", "red")));

    let filtered = IndexSearchQuery {
        filter: Some(MetadataFilter::Equals {
            key: "color".to_string(),
            value: MetadataValue::Text("red".to_string()),
        }),
        ..IndexSearchQuery::default()
    };
    assert!(query_matches_expansion(&filtered, &neighbor("docs", "red")));
    assert!(!query_matches_expansion(&filtered, &neighbor("docs", "blue")));
}

#[test]
fn search_query_default_shape() {
    let query = IndexSearchQuery::default();
    assert!(query.text.is_empty());
    assert!(query.collections.is_empty());
    assert!(query.filter.is_none());
    assert_eq!(query.limit, 10);
}
