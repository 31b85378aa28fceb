use seen_index::local_index::{empty_index, index_len, load_snapshot};
use seen_index::models::DocInfo;
use seen_index::rebuild::{canonical_ids, next_batch, rebuild_apply, rebuild_begin, rebuild_finish};
use vector_lite::Vector;

fn v(seed: f32) -> Vector<768> {
    let mut a = [0.0f32; 768];
    a[0] = 1.0;
    a[1] = seed;
    Vector::from(a)
}

fn doc(id: &str, chunk_count: usize) -> DocInfo {
    DocInfo {
        id: id.to_string(),
        url: format!("https://example.com/{}", id),
        created_at: "2024-01-01T00:00:00Z".to_string(),
        bucket_path: format!("content/{}.html", id),
        content_type: "text/html".to_string(),
        size: 1024,
        title: id.to_string(),
        summary: "s".to_string(),
        chunk_count,
    }
}

#[test]
fn canonical_list_walks_documents_in_order() {
    let docs = vec![doc("a", 2), doc("b-x", 1), doc("c", 0), doc("d", 2)];
    let ids = canonical_ids(&docs);
    assert_eq!(ids, vec!["a-0", "a-1", "b-x-0", "d-0", "d-1"]);
}

/// Run one full rebuild invocation over the given snapshot, handing every
/// requested id a fresh vector, and return what the caller observes.
fn invoke(snapshot: Option<&Vec<u8>>, docs: &Vec<DocInfo>) -> (Vec<u8>, usize, usize, usize) {
    let index = match snapshot {
        Some(bytes) => load_snapshot(bytes),
        None => empty_index(),
    };
    let mut run = rebuild_begin(index, docs, 20, 1);
    let mut rows_written: usize = 0;
    while !run.is_done() {
        let ids = next_batch(&run);
        let vectors: Vec<Vector<768>> =
            (0..ids.len()).map(|i| v(i as f32 + 1.0)).collect();
        let rows = rebuild_apply(&mut run, vectors);
        rows_written += rows.len();
    }
    let (bytes, total, migrated) = rebuild_finish(run);
    (bytes, total, migrated, rows_written)
}

#[test]
fn rebuild_converges_across_capped_invocations() {
    // 45 canonical ids, batch size 20, at most 1 batch per invocation:
    // successive invocations report watermarks 20, 40, 45
    let docs = vec![doc("a", 20), doc("b", 20), doc("c", 5)];

    let (bytes1, total1, migrated1, rows1) = invoke(None, &docs);
    assert_eq!((total1, migrated1, rows1), (45, 20, 20));
    assert_eq!(index_len(&load_snapshot(&bytes1)), 20);

    let (bytes2, total2, migrated2, rows2) = invoke(Some(&bytes1), &docs);
    assert_eq!((total2, migrated2, rows2), (45, 40, 20));
    assert_eq!(index_len(&load_snapshot(&bytes2)), 40);

    let (bytes3, total3, migrated3, rows3) = invoke(Some(&bytes2), &docs);
    assert_eq!((total3, migrated3, rows3), (45, 45, 5));
    assert_eq!(index_len(&load_snapshot(&bytes3)), 45);

    // a fourth invocation is a no-op: migrated == total and nothing written
    let (bytes4, total4, migrated4, rows4) = invoke(Some(&bytes3), &docs);
    assert_eq!((total4, migrated4, rows4), (45, 45, 0));
    assert_eq!(index_len(&load_snapshot(&bytes4)), 45);
}

#[test]
fn converged_rebuild_is_idempotent() {
    let docs = vec![doc("a", 3)];
    let (bytes1, _, migrated1, _) = invoke(None, &docs);
    assert_eq!(migrated1, 3);

    // re-running after convergence emits no durable rows and leaves the
    // snapshot's entries exactly as they were
    let (bytes2, total2, migrated2, rows2) = invoke(Some(&bytes1), &docs);
    assert_eq!((total2, migrated2, rows2), (3, 3, 0));
    assert_eq!(index_len(&load_snapshot(&bytes1)), index_len(&load_snapshot(&bytes2)));
}

#[test]
fn rebuild_rows_carry_decoded_document_ids() {
    let docs = vec![doc("a-b", 2)];
    let index = empty_index();
    let mut run = rebuild_begin(index, &docs, 20, 15);
    let ids = next_batch(&run);
    assert_eq!(ids, vec!["a-b-0", "a-b-1"]);
    let rows = rebuild_apply(&mut run, vec![v(1.0), v(2.0)]);
    assert_eq!(rows.len(), 2);
    assert_eq!(rows[0].vector_id, "a-b-0");
    assert_eq!(rows[0].document_id, "a-b");
    assert_eq!(rows[1].vector_id, "a-b-1");
    assert_eq!(rows[1].document_id, "a-b");
    assert!(run.is_done());
}

#[test]
fn short_vector_fetch_still_counts_the_batch() {
    // the remote returned fewer vectors than ids were asked: the unpaired
    // ids get no index entry, but the whole batch counts as visited, so the
    // reported progress runs ahead of the index until a later invocation
    // revisits them
    let docs = vec![doc("a", 5)];
    let index = empty_index();
    let mut run = rebuild_begin(index, &docs, 20, 1);
    let ids = next_batch(&run);
    assert_eq!(ids.len(), 5);
    let rows = rebuild_apply(&mut run, vec![v(1.0), v(2.0)]);
    assert_eq!(rows.len(), 2);
    let (bytes, total, migrated) = rebuild_finish(run);
    assert_eq!((total, migrated), (5, 5));
    assert_eq!(index_len(&load_snapshot(&bytes)), 2);
}

#[test]
fn rebuild_with_larger_cap_takes_several_batches() {
    let docs = vec![doc("a", 7)];
    let index = empty_index();
    let mut run = rebuild_begin(index, &docs, 3, 15);
    let mut batches: Vec<usize> = Vec::new();
    while !run.is_done() {
        let ids = next_batch(&run);
        batches.push(ids.len());
        let vectors: Vec<Vector<768>> = (0..ids.len()).map(|i| v(i as f32 + 1.0)).collect();
        rebuild_apply(&mut run, vectors);
    }
    assert_eq!(batches, vec![3, 3, 1]);
    let (_, total, migrated) = rebuild_finish(run);
    assert_eq!((total, migrated), (7, 7));
}

#[test]
fn watermark_beyond_total_plans_nothing() {
    // an index holding more entries than the canonical list counts is
    // reported as-is: nothing is planned and migrated exceeds total
    let mut index = empty_index();
    seen_index::coordinator::index_chunks(&mut index, "other", vec![v(1.0), v(2.0), v(3.0)]);
    let docs = vec![doc("a", 1)];
    let mut run = rebuild_begin(index, &docs, 20, 15);
    assert!(run.is_done());
    let rows = rebuild_apply(&mut run, vec![]);
    assert!(rows.is_empty());
    let (_, total, migrated) = rebuild_finish(run);
    assert_eq!((total, migrated), (1, 3));
}
