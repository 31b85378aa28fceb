//! The index coordinator: dual-write ingestion and deletion.
//!
//! Ingesting a document writes each chunk's embedding to the durable
//! embeddings table and into the active index backend; deleting a document
//! removes all of its chunk entries from both. No transaction spans the
//! content blob, the durable rows, and the index snapshot: a failure partway
//! leaves a visibly partial state, reported step by step rather than hidden.

use vstd::prelude::*;

use crate::models::DocInfo;
use crate::vector_id::{vid_of, make_vector_id, lemma_vid_injective};
use crate::local_index::{index_ids, index_wf, insert_entry, delete_entry};
use crate::rebuild::doc_vids;

verus! {

/// One row of the durable embeddings table: the chunk's vector id, the
/// document it belongs to, and the embedding itself.
pub struct EmbedRow {
    pub vector_id: String,
    pub document_id: String,
    pub vector: vector_lite::Vector<768>,
}

/// Relies on uuid::Uuid::new_v4 and its hyphenated display form: a fresh
/// random identifier rendered as 36 characters (hyphens included).
#[verifier::external_body]
fn mint_document_id() -> (r: String)
    ensures
        r@.len() == 36,
{
    uuid::Uuid::new_v4().to_string()
}

/// Build the document row for a newly ingested document: a freshly minted
/// random id, and the blob key its raw content is stored under, derived
/// from the content type.
pub fn new_document(
    url: String,
    created_at: String,
    content_type: String,
    size: usize,
    title: String,
    summary: String,
    chunk_count: usize,
) -> (r: DocInfo)
    ensures
        r.id@.len() == 36,
        r.bucket_path@ == crate::content::bucket_path_of(r.id@, content_type@),
        r.url == url,
        r.created_at == created_at,
        r.content_type == content_type,
        r.size == size,
        r.title == title,
        r.summary == summary,
        r.chunk_count == chunk_count,
{
    let id = mint_document_id();
    let bucket_path = crate::content::get_bucket_path(content_type.as_str(), id.as_str());
    DocInfo {
        id,
        url,
        created_at,
        bucket_path,
        content_type,
        size,
        title,
        summary,
        chunk_count,
    }
}

/// Index a newly ingested document's chunk embeddings: insert entry
/// `"{document_id}-{i}"` for each embedding into the local index, and hand
/// back the durable rows to write, one per chunk, in chunk order. The
/// document must be new to the index — each document is ingested once, so
/// none of its chunk ids is live yet.
pub fn index_chunks(
    index: &mut vector_lite::VectorLite<768>,
    document_id: &str,
    vectors: Vec<vector_lite::Vector<768>>,
) -> (rows: Vec<EmbedRow>)
    requires
        index_wf(*old(index)),
        index_ids(*old(index)).disjoint(doc_vids(document_id@, vectors@.len()).to_set()),
    ensures
        index_wf(*final(index)),
        index_ids(*final(index)) == index_ids(*old(index))
            .union(doc_vids(document_id@, vectors@.len()).to_set()),
        rows@.len() == vectors@.len(),
        forall|i: int| 0 <= i < rows@.len() ==> {
            let row = #[trigger] rows@[i];
            &&& row.vector_id@ == vid_of(document_id@, i as nat)
            &&& row.document_id@ == document_id@
            &&& row.vector == vectors@[i]
        },
{
    let ghost ids0 = index_ids(*old(index));
    let ghost vs0 = vectors@;
    let ghost dset = doc_vids(document_id@, vs0.len()).to_set();
    proof {
        assert(ids0.disjoint(dset));
        assert forall|a: Seq<char>| ids0.contains(a) implies !dset.contains(a) by {}
    }
    let mut vectors = vectors;
    let mut rows: Vec<EmbedRow> = Vec::new();
    let mut i: usize = 0;
    let n = vectors.len();
    proof {
        assert(doc_vids(document_id@, 0).to_set() =~= Set::<Seq<char>>::empty());
        assert(ids0.union(Set::<Seq<char>>::empty()) =~= ids0);
    }
    while i < n
        invariant
            i <= n,
            n == vs0.len(),
            vectors@ == vs0.skip(i as int),
            index_wf(*index),
            ids0 == index_ids(*old(index)),
            dset == doc_vids(document_id@, vs0.len()).to_set(),
            forall|a: Seq<char>| ids0.contains(a) ==> !dset.contains(a),
            index_ids(*index) == ids0.union(doc_vids(document_id@, i as nat).to_set()),
            rows@.len() == i as nat,
            forall|t: int| 0 <= t < i ==> {
                let row = #[trigger] rows@[t];
                &&& row.vector_id@ == vid_of(document_id@, t as nat)
                &&& row.document_id@ == document_id@
                &&& row.vector == vs0[t]
            },
        decreases n - i,
    {
        let vector = vectors.remove(0);
        proof {
            assert(vs0.skip(i as int)[0] == vs0[i as int]);
            assert(vs0.skip(i as int).remove(0) =~= vs0.skip(i as int + 1));
        }
        let vid = make_vector_id(document_id, i);
        let doc = crate::vector_id::document_of(vid.as_str());
        proof {
            crate::vector_id::lemma_vector_id_round_trip(document_id@, i as nat);
            // the new entry's id is live nowhere: not in the index as it was
            // (the document is new, and its id is among the document's ids)...
            assert(doc_vids(document_id@, vs0.len())[i as int] == vid_of(document_id@, i as nat));
            assert(doc_vids(document_id@, vs0.len()).contains(vid_of(document_id@, i as nat)));
            assert(dset.contains(vid_of(document_id@, i as nat)));
            assert(!ids0.contains(vid_of(document_id@, i as nat))) by {
                if ids0.contains(vid_of(document_id@, i as nat)) {
                    assert(!dset.contains(vid_of(document_id@, i as nat)));
                }
            }
            // ...and not among the chunks inserted before it, whose indexes differ
            assert(!doc_vids(document_id@, i as nat).to_set().contains(vid_of(document_id@, i as nat))) by {
                if doc_vids(document_id@, i as nat).to_set().contains(vid_of(document_id@, i as nat)) {
                    assert(doc_vids(document_id@, i as nat).contains(vid_of(document_id@, i as nat)));
                    let t = choose|t: int| 0 <= t < i && #[trigger] doc_vids(document_id@, i as nat)[t]
                        == vid_of(document_id@, i as nat);
                    lemma_vid_injective(document_id@, t as nat, i as nat);
                }
            }
            assert(!index_ids(*index).contains(vid_of(document_id@, i as nat)));
        }
        let vcopy = crate::local_index::clone_vector(&vector);
        insert_entry(index, vcopy, vid.clone());
        rows.push(EmbedRow { vector_id: vid, document_id: doc, vector });
        proof {
            let prev = doc_vids(document_id@, i as nat);
            assert(doc_vids(document_id@, (i + 1) as nat) =~= prev.push(vid_of(document_id@, i as nat)));
            prev.lemma_push_to_set_commute(vid_of(document_id@, i as nat));
            assert(ids0.union(prev.to_set()).insert(vid_of(document_id@, i as nat))
                =~= ids0.union(doc_vids(document_id@, (i + 1) as nat).to_set()));
        }
        i = i + 1;
    }
    rows
}

/// Remove a deleted document's chunk entries from the local index: entries
/// `"{document_id}-0"` through `"{document_id}-{chunk_count - 1}"`. The
/// synthesized id list also drives the remote batch delete and the durable
/// row deletes (`chunk_ids` in the codec builds it).
pub fn delete_document_chunks(
    index: &mut vector_lite::VectorLite<768>,
    document_id: &str,
    chunk_count: usize,
)
    requires
        index_wf(*old(index)),
    ensures
        index_wf(*final(index)),
        index_ids(*final(index)) == index_ids(*old(index))
            .difference(doc_vids(document_id@, chunk_count as nat).to_set()),
{
    let ghost ids0 = index_ids(*old(index));
    let mut i: usize = 0;
    proof {
        assert(doc_vids(document_id@, 0).to_set() =~= Set::<Seq<char>>::empty());
        assert(ids0.difference(Set::<Seq<char>>::empty()) =~= ids0);
    }
    while i < chunk_count
        invariant
            i <= chunk_count,
            index_wf(*index),
            ids0 == index_ids(*old(index)),
            index_ids(*index) == ids0.difference(doc_vids(document_id@, i as nat).to_set()),
        decreases chunk_count - i,
    {
        let vid = make_vector_id(document_id, i);
        delete_entry(index, vid.as_str());
        proof {
            let prev = doc_vids(document_id@, i as nat);
            assert(doc_vids(document_id@, (i + 1) as nat) =~= prev.push(vid_of(document_id@, i as nat)));
            prev.lemma_push_to_set_commute(vid_of(document_id@, i as nat));
            assert(ids0.difference(prev.to_set()).remove(vid_of(document_id@, i as nat))
                =~= ids0.difference(doc_vids(document_id@, (i + 1) as nat).to_set()));
        }
        i = i + 1;
    }
}

/// What one ingestion left behind. The steps run in a fixed order — content
/// blob, durable document and embedding rows (one batch), index snapshot —
/// and stop at the first failure; nothing written is rolled back.
pub struct IngestReport {
    pub steps_completed: usize,
    pub content_saved: bool,
    pub rows_durable: bool,
    pub snapshot_written: bool,
}

/// The report that ordered step outcomes leave behind.
pub open spec fn ingest_report_of(content_ok: bool, rows_ok: bool, snapshot_ok: bool) -> IngestReport {
    IngestReport {
        steps_completed: if !content_ok { 0 } else if !rows_ok { 1 } else if !snapshot_ok { 2 } else { 3 },
        content_saved: content_ok,
        rows_durable: content_ok && rows_ok,
        snapshot_written: content_ok && rows_ok && snapshot_ok,
    }
}

/// Fold the outcomes of one ingestion's writes, in their fixed order, into
/// a report of exactly which effects persist. A step that was never reached
/// (because an earlier one failed) leaves no effect.
pub fn ingest_progress(content_ok: bool, rows_ok: bool, snapshot_ok: bool) -> (r: IngestReport)
    ensures
        r == ingest_report_of(content_ok, rows_ok, snapshot_ok),
{
    let steps_completed: usize = if !content_ok {
        0
    } else if !rows_ok {
        1
    } else if !snapshot_ok {
        2
    } else {
        3
    };
    IngestReport {
        steps_completed,
        content_saved: content_ok,
        rows_durable: content_ok && rows_ok,
        snapshot_written: content_ok && rows_ok && snapshot_ok,
    }
}

/// What one deletion left behind. The steps run in a fixed order — the
/// durable document and embedding rows (one batch), the content blob, the
/// remote index entries, the local-index snapshot — and stop at the first
/// failure; nothing deleted is restored.
pub struct DeleteReport {
    pub steps_completed: usize,
    pub rows_deleted: bool,
    pub blob_deleted: bool,
    pub remote_deleted: bool,
    pub snapshot_written: bool,
}

/// The report that ordered delete-step outcomes leave behind.
pub open spec fn delete_report_of(rows_ok: bool, blob_ok: bool, remote_ok: bool, snapshot_ok: bool) -> DeleteReport {
    DeleteReport {
        steps_completed: if !rows_ok { 0 } else if !blob_ok { 1 } else if !remote_ok { 2 } else if !snapshot_ok { 3 } else { 4 },
        rows_deleted: rows_ok,
        blob_deleted: rows_ok && blob_ok,
        remote_deleted: rows_ok && blob_ok && remote_ok,
        snapshot_written: rows_ok && blob_ok && remote_ok && snapshot_ok,
    }
}

/// Fold the outcomes of one deletion's steps, in their fixed order, into a
/// report of exactly which effects persist. A step that was never reached
/// (because an earlier one failed) leaves no effect.
pub fn delete_progress(rows_ok: bool, blob_ok: bool, remote_ok: bool, snapshot_ok: bool) -> (r: DeleteReport)
    ensures
        r == delete_report_of(rows_ok, blob_ok, remote_ok, snapshot_ok),
{
    let steps_completed: usize = if !rows_ok {
        0
    } else if !blob_ok {
        1
    } else if !remote_ok {
        2
    } else if !snapshot_ok {
        3
    } else {
        4
    };
    DeleteReport {
        steps_completed,
        rows_deleted: rows_ok,
        blob_deleted: rows_ok && blob_ok,
        remote_deleted: rows_ok && blob_ok && remote_ok,
        snapshot_written: rows_ok && blob_ok && remote_ok && snapshot_ok,
    }
}

/// Deletion is no more atomic than ingestion: whenever the durable rows
/// were deleted and the remote batch delete then failed, the remote index
/// still holds the document's entries although its rows are gone.
pub proof fn lemma_partial_delete_visible(blob_ok: bool, remote_ok: bool)
    requires
        !remote_ok,
    ensures
        delete_report_of(true, blob_ok, remote_ok, false).rows_deleted,
        !delete_report_of(true, blob_ok, remote_ok, false).remote_deleted,
        !delete_report_of(true, blob_ok, remote_ok, false).snapshot_written,
{
}

/// No transaction spans the durable table and the index snapshot: whenever
/// the durable-rows write succeeded and the snapshot write failed, the
/// embedding rows stay observable although no matching index entry was
/// persisted. This is an accepted limitation of the design, stated rather
/// than hidden.
pub proof fn lemma_partial_write_visible(rows_ok_reached: bool, snapshot_ok: bool)
    requires
        rows_ok_reached,
        !snapshot_ok,
    ensures
        ingest_report_of(true, rows_ok_reached, snapshot_ok).rows_durable,
        !ingest_report_of(true, rows_ok_reached, snapshot_ok).snapshot_written,
        ingest_report_of(true, rows_ok_reached, snapshot_ok).steps_completed == 2,
{
}

} // verus!
