use akuna_core::index::candidates::CandidateKey;
use akuna_core::index::fusion::{
    rerank_pairs, unreranked_evidence, BestChunk, CandidateAccumulator, ChunkSearchResult, EvidenceRef,
    Fusion, RankingCandidate, RecordSearchResult, DENSE_CHUNK_PRIORITY, TEXT_CHUNK_PRIORITY,
};
use akuna_core::index::preview::CandidateEvidence;
use akuna_core::index::Metadata;

fn key(record_id: &str) -> CandidateKey {
    CandidateKey { collection: "docs".to_string(), record_id: record_id.to_string() }
}

fn chunk(record_id: &str, chunk_id: &str, text: &str) -> ChunkSearchResult {
    ChunkSearchResult {
        collection: "docs".to_string(),
        record_id: record_id.to_string(),
        chunk_id: chunk_id.to_string(),
        text: text.to_string(),
    }
}

fn title(record_id: &str) -> RecordSearchResult {
    RecordSearchResult { collection: "docs".to_string(), record_id: record_id.to_string() }
}

fn best(rank: usize, priority: usize, text: &str) -> Option<BestChunk> {
    Some(BestChunk { rank, priority, text: text.to_string() })
}

#[test]
fn chunk_lists_rank_records_and_keep_distinct_chunks() {
    let mut fusion = Fusion::new();
    fusion.add_chunk_results(
        vec![chunk("a", "c1", "a one"), chunk("b", "c2", "b one"), chunk("a", "c3", "a two"), chunk("a", "c1", "a again")],
        DENSE_CHUNK_PRIORITY,
    );
    let a = fusion.get(&key("a")).expect("a fused");
    assert_eq!(a.ranks, vec![1]);
    assert_eq!(a.chunks, vec!["a one".to_string(), "a two".to_string()]);
    assert_eq!(a.chunk_ids, vec!["c1".to_string(), "c3".to_string()]);
    assert_eq!(a.best_chunk, best(1, DENSE_CHUNK_PRIORITY, "a one"));
    let b = fusion.get(&key("b")).expect("b fused");
    assert_eq!(b.ranks, vec![2]);
    assert_eq!(b.best_chunk, best(2, DENSE_CHUNK_PRIORITY, "b one"));

    fusion.add_chunk_results(vec![chunk("b", "c2", "b one"), chunk("a", "c4", "a three")], TEXT_CHUNK_PRIORITY);
    let a = fusion.get(&key("a")).expect("a fused");
    assert_eq!(a.ranks, vec![1, 2]);
    assert_eq!(a.chunks.len(), 3);
    assert_eq!(a.best_chunk, best(1, DENSE_CHUNK_PRIORITY, "a one"));
    let b = fusion.get(&key("b")).expect("b fused");
    assert_eq!(b.ranks, vec![2, 1]);
    assert_eq!(b.chunks, vec!["b one".to_string()]);
    assert_eq!(b.best_chunk, best(1, TEXT_CHUNK_PRIORITY, "b one"));
    assert!(fusion.get(&key("c")).is_none());
}

#[test]
fn equal_rank_prefers_lower_priority_list() {
    let mut fusion = Fusion::new();
    fusion.add_chunk_results(vec![chunk("a", "c1", "lexical")], TEXT_CHUNK_PRIORITY);
    fusion.add_chunk_results(vec![chunk("a", "c2", "dense")], DENSE_CHUNK_PRIORITY);
    fusion.add_chunk_results(vec![chunk("a", "c3", "later")], TEXT_CHUNK_PRIORITY);
    let a = fusion.get(&key("a")).expect("a fused");
    assert_eq!(a.ranks, vec![1, 1, 1]);
    assert_eq!(a.best_chunk, best(1, DENSE_CHUNK_PRIORITY, "dense"));
}

#[test]
fn title_lists_mark_hits_and_skip_repeats() {
    let mut fusion = Fusion::new();
    fusion.add_chunk_results(vec![chunk("a", "c1", "a one")], DENSE_CHUNK_PRIORITY);
    fusion.add_title_results(vec![title("c"), title("a"), title("c")]);
    let a = fusion.get(&key("a")).expect("a fused");
    assert_eq!(a.ranks, vec![1, 2]);
    assert!(a.title_hit);
    let c = fusion.get(&key("c")).expect("c fused");
    assert_eq!(c.ranks, vec![1]);
    assert!(c.title_hit);
    assert!(c.chunks.is_empty());
    assert!(c.best_chunk.is_none());

    let entries = fusion.into_entries();
    assert_eq!(entries.len(), 2);
    assert_eq!(entries[0].0, key("a"));
    assert_eq!(entries[1].0, key("c"));
}

fn accumulator(chunks: &[&str], title_hit: bool, best_chunk: Option<BestChunk>) -> CandidateAccumulator {
    CandidateAccumulator {
        ranks: vec![1],
        title_hit,
        chunks: chunks.iter().map(|chunk| chunk.to_string()).collect(),
        chunk_ids: chunks.iter().map(|chunk| format!("id-{chunk}")).collect(),
        best_chunk,
    }
}

#[test]
fn unreranked_evidence_prefers_best_chunk_then_title() {
    assert_eq!(
        unreranked_evidence(&accumulator(&["x"], true, best(1, 0, "x"))),
        CandidateEvidence::Chunk("x".to_string())
    );
    assert_eq!(unreranked_evidence(&accumulator(&[], true, None)), CandidateEvidence::Title);
    assert_eq!(unreranked_evidence(&accumulator(&[], false, None)), CandidateEvidence::Unmatched);
}

#[test]
fn rerank_pairs_cover_chunks_then_titles() {
    let candidate = |title: &str, fused: CandidateAccumulator| RankingCandidate {
        record_id: title.to_lowercase(),
        collection: "docs".to_string(),
        title: title.to_string(),
        content: String::new(),
        metadata: Metadata::new(),
        fused,
    };
    let candidates = vec![
        candidate("First", accumulator(&["one", "two"], true, None)),
        candidate("Second", accumulator(&[], false, None)),
        candidate("Third", accumulator(&["three"], false, None)),
    ];
    let (pairs, references) = rerank_pairs("query", &candidates);
    let pair = |text: &str| ("query".to_string(), text.to_string());
    assert_eq!(pairs, vec![pair("one"), pair("two"), pair("First"), pair("three")]);
    let reference = |candidate_index, evidence| EvidenceRef { candidate_index, evidence };
    assert_eq!(
        references,
        vec![
            reference(0, CandidateEvidence::Chunk("one".to_string())),
            reference(0, CandidateEvidence::Chunk("two".to_string())),
            reference(0, CandidateEvidence::Title),
            reference(2, CandidateEvidence::Chunk("three".to_string())),
        ]
    );
}
