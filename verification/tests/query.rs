use seen_index::models::DocInfo;
use seen_index::query::{
    assemble_results, chunk_index_of, merge_hits, ChunkHit, RESULT_DOC_LIMIT,
};

fn hit(vector_id: &str, score: u32) -> ChunkHit {
    ChunkHit { vector_id: vector_id.to_string(), score }
}

fn doc(id: &str) -> DocInfo {
    DocInfo {
        id: id.to_string(),
        url: format!("https://example.com/{}", id),
        created_at: "2024-01-01T00:00:00Z".to_string(),
        bucket_path: format!("content/{}.html", id),
        content_type: "text/html".to_string(),
        size: 1024,
        title: format!("title {}", id),
        summary: "a summary".to_string(),
        chunk_count: 2,
    }
}

#[test]
fn merge_groups_and_ranks_documents() {
    // chunk hits [("d1-0",0.9), ("d1-1",0.4), ("d2-0",0.85)] as integer ranks
    let hits = vec![hit("d1-0", 90), hit("d1-1", 40), hit("d2-0", 85)];
    let groups = merge_hits(&hits, RESULT_DOC_LIMIT);
    assert_eq!(groups.len(), 2);
    assert_eq!(groups[0].document_id, "d1");
    assert_eq!(groups[0].max_score, 90);
    assert_eq!(groups[1].document_id, "d2");
    assert_eq!(groups[1].max_score, 85);
    // d1's chunks, ordered by score descending
    let chunks: Vec<(usize, u32)> = groups[0].chunks.iter().map(|c| (c.chunk_index, c.score)).collect();
    assert_eq!(chunks, vec![(0, 90), (1, 40)]);
    let chunks2: Vec<(usize, u32)> = groups[1].chunks.iter().map(|c| (c.chunk_index, c.score)).collect();
    assert_eq!(chunks2, vec![(0, 85)]);
}

#[test]
fn merge_reorders_by_best_score() {
    // the best-scoring document appears later in the hit list
    let hits = vec![hit("low-0", 10), hit("high-0", 99), hit("low-1", 50)];
    let groups = merge_hits(&hits, RESULT_DOC_LIMIT);
    assert_eq!(groups.len(), 2);
    assert_eq!(groups[0].document_id, "high");
    assert_eq!(groups[0].max_score, 99);
    assert_eq!(groups[1].document_id, "low");
    assert_eq!(groups[1].max_score, 50);
}

#[test]
fn merge_truncates_to_five_best_documents() {
    // hits spanning 7 distinct documents: exactly 5 come back, the 5 with
    // the highest per-document best score
    let hits = vec![
        hit("a-0", 10),
        hit("b-0", 70),
        hit("c-0", 30),
        hit("d-0", 90),
        hit("e-0", 50),
        hit("f-0", 60),
        hit("g-0", 20),
    ];
    let groups = merge_hits(&hits, RESULT_DOC_LIMIT);
    assert_eq!(groups.len(), 5);
    let ids: Vec<&str> = groups.iter().map(|g| g.document_id.as_str()).collect();
    assert_eq!(ids, vec!["d", "b", "f", "e", "c"]);
    let scores: Vec<u32> = groups.iter().map(|g| g.max_score).collect();
    assert_eq!(scores, vec![90, 70, 60, 50, 30]);
}

#[test]
fn merge_empty_hits_yield_empty_result() {
    let hits: Vec<ChunkHit> = vec![];
    let groups = merge_hits(&hits, RESULT_DOC_LIMIT);
    assert!(groups.is_empty());
    // and result assembly over it touches no lookups at all
    let results = assemble_results(groups, vec![]);
    assert!(results.is_empty());
}

#[test]
fn merge_tracks_max_per_document() {
    let hits = vec![hit("d-0", 30), hit("d-1", 80), hit("d-2", 55)];
    let groups = merge_hits(&hits, RESULT_DOC_LIMIT);
    assert_eq!(groups.len(), 1);
    assert_eq!(groups[0].max_score, 80);
    let chunks: Vec<(usize, u32)> = groups[0].chunks.iter().map(|c| (c.chunk_index, c.score)).collect();
    assert_eq!(chunks, vec![(1, 80), (2, 55), (0, 30)]);
}

#[test]
fn merge_groups_hyphenated_document_ids() {
    // a uuid-style document id with hyphens groups as one document
    let hits = vec![hit("a-b-c-0", 40), hit("a-b-c-1", 60)];
    let groups = merge_hits(&hits, RESULT_DOC_LIMIT);
    assert_eq!(groups.len(), 1);
    assert_eq!(groups[0].document_id, "a-b-c");
    assert_eq!(groups[0].max_score, 60);
}

#[test]
fn assemble_drops_lookup_misses() {
    let hits = vec![hit("d1-0", 90), hit("d2-0", 85), hit("d3-0", 80)];
    let groups = merge_hits(&hits, RESULT_DOC_LIMIT);
    assert_eq!(groups.len(), 3);
    // the middle document's metadata lookup missed; the others still come back
    let lookups = vec![Some(doc("d1")), None, Some(doc("d3"))];
    let results = assemble_results(groups, lookups);
    assert_eq!(results.len(), 2);
    assert_eq!(results[0].0.id, "d1");
    assert_eq!(results[0].1, 90);
    assert_eq!(results[1].0.id, "d3");
    assert_eq!(results[1].1, 80);
}

#[test]
fn chunk_index_of_reads_the_tail() {
    assert_eq!(chunk_index_of("doc-15"), 15);
    assert_eq!(chunk_index_of("a-b-3"), 3);
    // an id that does not decode counts as chunk 0
    assert_eq!(chunk_index_of("nodash"), 0);
    assert_eq!(chunk_index_of("doc-1x"), 0);
}

#[test]
fn merge_ties_keep_first_seen_order() {
    // documents tied on their best score stay in first-appearance order
    let hits = vec![hit("x-0", 50), hit("y-0", 50), hit("z-0", 50)];
    let groups = merge_hits(&hits, RESULT_DOC_LIMIT);
    let ids: Vec<&str> = groups.iter().map(|g| g.document_id.as_str()).collect();
    assert_eq!(ids, vec!["x", "y", "z"]);
}
