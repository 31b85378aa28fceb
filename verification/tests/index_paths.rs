use seen_index::content::{get_bucket_path, get_extension_from_content_type};
use seen_index::coordinator::{
    delete_document_chunks, delete_progress, index_chunks, ingest_progress, new_document,
};
use seen_index::embed::{embedding_response_ok, resolve_embed_attempts, ServiceError};
use seen_index::local_index::{
    empty_index, index_len, load_snapshot, reload_snapshot, save_snapshot, search_entries,
};
use vector_lite::Vector;

fn v(seed: f32) -> Vector<768> {
    let mut a = [0.0f32; 768];
    a[0] = 1.0;
    a[1] = seed;
    Vector::from(a)
}

#[test]
fn fresh_index_is_empty() {
    let index = empty_index();
    assert_eq!(index_len(&index), 0);
}

#[test]
fn index_chunks_adds_one_entry_per_embedding() {
    let mut index = empty_index();
    let rows = index_chunks(&mut index, "doc-1", vec![v(1.0), v(2.0), v(3.0)]);
    assert_eq!(index_len(&index), 3);
    assert_eq!(rows.len(), 3);
    let ids: Vec<&str> = rows.iter().map(|r| r.vector_id.as_str()).collect();
    assert_eq!(ids, vec!["doc-1-0", "doc-1-1", "doc-1-2"]);
    // the document id carried on every row is decoded from the vector id,
    // hyphens in the document id included
    for row in &rows {
        assert_eq!(row.document_id, "doc-1");
    }
}

#[test]
fn delete_document_chunks_removes_all_entries() {
    let mut index = empty_index();
    index_chunks(&mut index, "a", vec![v(1.0), v(2.0)]);
    index_chunks(&mut index, "b", vec![v(3.0)]);
    assert_eq!(index_len(&index), 3);
    delete_document_chunks(&mut index, "a", 2);
    assert_eq!(index_len(&index), 1);
    // deleting entries that are not there changes nothing
    delete_document_chunks(&mut index, "a", 2);
    assert_eq!(index_len(&index), 1);
    delete_document_chunks(&mut index, "b", 1);
    assert_eq!(index_len(&index), 0);
}

#[test]
fn snapshot_round_trip_keeps_entries() {
    let mut index = empty_index();
    index_chunks(&mut index, "doc", vec![v(1.0), v(2.0)]);
    let bytes = save_snapshot(&index);
    let loaded = load_snapshot(&bytes);
    assert_eq!(index_len(&loaded), 2);
    let again = reload_snapshot(&loaded);
    assert_eq!(index_len(&again), 2);
}

#[test]
fn search_returns_known_entries() {
    let mut index = empty_index();
    index_chunks(&mut index, "a", vec![v(10.0)]);
    index_chunks(&mut index, "b", vec![v(-7.0)]);
    index_chunks(&mut index, "c", vec![v(0.5)]);
    let results = search_entries(&index, &v(10.0), 2);
    // a populated index returns a full page: min(top_k, entries) results
    assert_eq!(results.len(), 2);
    let known = ["a-0", "b-0", "c-0"];
    for (id, _) in &results {
        assert!(known.contains(&id.as_str()));
    }
    // the best match for an entry's own vector is that entry
    assert_eq!(results[0].0, "a-0");
}

#[test]
fn new_document_mints_a_36_char_id() {
    let row = new_document(
        "https://example.com".to_string(),
        "2024-01-01T00:00:00Z".to_string(),
        "text/html; charset=utf-8".to_string(),
        2048,
        "a title".to_string(),
        "a summary".to_string(),
        4,
    );
    assert_eq!(row.id.len(), 36);
    assert_eq!(row.url, "https://example.com");
    assert_eq!(row.chunk_count, 4);
    assert_eq!(row.size, 2048);
    assert_eq!(row.bucket_path, format!("content/{}.html", row.id));
}

#[test]
fn ingestion_steps_stop_at_the_first_failure() {
    let all_ok = ingest_progress(true, true, true);
    assert_eq!(all_ok.steps_completed, 3);
    assert!(all_ok.content_saved && all_ok.rows_durable && all_ok.snapshot_written);

    let nothing = ingest_progress(false, true, true);
    assert_eq!(nothing.steps_completed, 0);
    assert!(!nothing.content_saved && !nothing.rows_durable && !nothing.snapshot_written);

    let rows_failed = ingest_progress(true, false, true);
    assert_eq!(rows_failed.steps_completed, 1);
    assert!(rows_failed.content_saved && !rows_failed.rows_durable);
}

#[test]
fn partial_write_leaves_durable_rows_visible() {
    // the durable-table write succeeded, the index-snapshot write failed:
    // the embedding rows stay observable with no matching index entry
    let report = ingest_progress(true, true, false);
    assert!(report.rows_durable);
    assert!(!report.snapshot_written);
    assert_eq!(report.steps_completed, 2);
}

#[test]
fn deletion_steps_stop_at_the_first_failure() {
    let all_ok = delete_progress(true, true, true, true);
    assert_eq!(all_ok.steps_completed, 4);
    assert!(all_ok.rows_deleted && all_ok.blob_deleted && all_ok.remote_deleted && all_ok.snapshot_written);

    let nothing = delete_progress(false, true, true, true);
    assert_eq!(nothing.steps_completed, 0);
    assert!(!nothing.rows_deleted && !nothing.blob_deleted);

    let blob_failed = delete_progress(true, false, true, true);
    assert_eq!(blob_failed.steps_completed, 1);
    assert!(blob_failed.rows_deleted && !blob_failed.blob_deleted && !blob_failed.remote_deleted);
}

#[test]
fn partial_delete_leaves_remote_entries_standing() {
    // the durable rows are gone but the remote batch delete failed: the
    // remote index still holds the document's entries
    let report = delete_progress(true, true, false, true);
    assert!(report.rows_deleted);
    assert!(report.blob_deleted);
    assert!(!report.remote_deleted);
    assert!(!report.snapshot_written);
    assert_eq!(report.steps_completed, 2);
}

#[test]
fn search_full_page_on_small_index() {
    // asking for more results than the index holds returns everything
    let mut index = empty_index();
    index_chunks(&mut index, "only", vec![v(3.0)]);
    let results = search_entries(&index, &v(1.0), 5);
    assert_eq!(results.len(), 1);
    assert_eq!(results[0].0, "only-0");
}

#[test]
fn embed_retry_resolution() {
    let ok_first = resolve_embed_attempts(Some(v(1.0)), None);
    assert_eq!(ok_first.unwrap(), v(1.0));

    let ok_retry = resolve_embed_attempts(None, Some(v(2.0)));
    assert_eq!(ok_retry.unwrap(), v(2.0));

    let failed = resolve_embed_attempts(None, None);
    assert_eq!(failed.unwrap_err(), ServiceError::Transient);
}

#[test]
fn embedding_response_acceptance() {
    assert!(embedding_response_ok(true, 1));
    assert!(!embedding_response_ok(false, 1));
    assert!(!embedding_response_ok(true, 0));
    assert!(!embedding_response_ok(false, 0));
}

#[test]
fn extension_follows_the_bare_mime_type() {
    assert_eq!(get_extension_from_content_type("text/html"), "html");
    assert_eq!(get_extension_from_content_type("text/html; charset=utf-8"), "html");
    assert_eq!(get_extension_from_content_type("application/pdf"), "pdf");
    assert_eq!(get_extension_from_content_type("image/jpeg"), "jpg");
    assert_eq!(get_extension_from_content_type("image/png"), "png");
    assert_eq!(get_extension_from_content_type("image/gif"), "gif");
    assert_eq!(get_extension_from_content_type("application/json"), "json");
    assert_eq!(get_extension_from_content_type("text/plain"), "txt");
    assert_eq!(get_extension_from_content_type("text/css"), "css");
    assert_eq!(get_extension_from_content_type("text/javascript"), "js");
    assert_eq!(get_extension_from_content_type("application/javascript"), "js");
    assert_eq!(get_extension_from_content_type("application/xml"), "xml");
    assert_eq!(get_extension_from_content_type("text/xml"), "xml");
    assert_eq!(get_extension_from_content_type("application/octet-stream"), "bin");
    assert_eq!(get_extension_from_content_type(""), "bin");
}

#[test]
fn bucket_path_joins_id_and_extension() {
    assert_eq!(get_bucket_path("text/html; charset=utf-8", "abc-123"), "content/abc-123.html");
    assert_eq!(get_bucket_path("application/wasm", "x"), "content/x.bin");
}
