//! The bounded, resumable rebuild of the local index.
//!
//! Every invocation has a hard execution-time ceiling, so the rebuild takes
//! the canonical ordered list of vector ids (every document in listing
//! order, every chunk index within it), skips the first `watermark` ids —
//! where the watermark is simply the local index's current entry count —
//! and migrates at most `batch_size * max_batches` of the rest, fetching
//! each batch's vectors from the remote index, upserting the durable rows,
//! and inserting into the local index. The refreshed snapshot is then
//! written back in full, and `(total, migrated)` is returned so the caller
//! can re-invoke until `migrated == total`.
//!
//! Fetching a batch's vectors is the caller's I/O; the decisions — which
//! ids to take, where to resume, when the run is complete — live here.

use vstd::prelude::*;
use vstd::math::min;

use crate::models::DocInfo;
use crate::vector_id::{vid_of, doc_of, make_vector_id, document_of};
use crate::local_index::{index_ids, index_wf, snapshot_ids, snapshot_well_formed};
use crate::local_index::{index_len, save_snapshot, insert_entry, clone_vector};
use crate::coordinator::EmbedRow;

verus! {

/// The views of a sequence of strings.
pub open spec fn strs_view(v: Seq<String>) -> Seq<Seq<char>> {
    v.map_values(|s: String| s@)
}

proof fn lemma_strs_view_push(v: Seq<String>, s: String)
    ensures
        strs_view(v.push(s)) =~= strs_view(v).push(s@),
{
    assert forall|t: int| 0 <= t < v.len() + 1
        implies strs_view(v.push(s))[t] == strs_view(v).push(s@)[t] by {
        if t < v.len() {
            assert(v.push(s)[t] == v[t]);
        } else {
            assert(v.push(s)[t] == s);
        }
    }
}

/// The vector ids of one document's chunks, in chunk order.
pub open spec fn doc_vids(doc: Seq<char>, count: nat) -> Seq<Seq<char>> {
    Seq::new(count, |j: int| vid_of(doc, j as nat))
}

/// The canonical ordered vector-id list: every document in listing order,
/// every chunk index within it.
pub open spec fn canonical_vids(docs: Seq<DocInfo>) -> Seq<Seq<char>>
    decreases docs.len(),
{
    if docs.len() == 0 {
        Seq::empty()
    } else {
        canonical_vids(docs.drop_last())
            + doc_vids(docs.last().id@, docs.last().chunk_count as nat)
    }
}

/// Enumerate the canonical vector-id list of a document listing.
pub fn canonical_ids(docs: &Vec<DocInfo>) -> (r: Vec<String>)
    ensures
        strs_view(r@) == canonical_vids(docs@),
{
    let ghost ds = docs@;
    let mut out: Vec<String> = Vec::new();
    let mut i: usize = 0;
    proof {
        assert(strs_view(out@) =~= canonical_vids(ds.take(0)));
        assert(ds.take(0) =~= Seq::<DocInfo>::empty());
    }
    while i < docs.len()
        invariant
            i <= docs.len(),
            ds == docs@,
            strs_view(out@) == canonical_vids(ds.take(i as int)),
        decreases docs.len() - i,
    {
        let count = docs[i].chunk_count;
        let mut j: usize = 0;
        while j < count
            invariant
                j <= count,
                i < docs.len(),
                ds == docs@,
                count == ds[i as int].chunk_count,
                strs_view(out@) == canonical_vids(ds.take(i as int))
                    + doc_vids(ds[i as int].id@, j as nat),
            decreases count - j,
        {
            let ghost out0 = out@;
            let vid = make_vector_id(docs[i].id.as_str(), j);
            out.push(vid);
            proof {
                lemma_strs_view_push(out0, out@.last());
                assert(strs_view(out@) =~= canonical_vids(ds.take(i as int))
                    + doc_vids(ds[i as int].id@, (j + 1) as nat));
            }
            j = j + 1;
        }
        proof {
            assert(ds.take(i as int + 1).drop_last() =~= ds.take(i as int));
            assert(ds.take(i as int + 1).last() == ds[i as int]);
            assert(canonical_vids(ds.take(i as int + 1))
                == canonical_vids(ds.take(i as int)) + doc_vids(ds[i as int].id@, ds[i as int].chunk_count as nat));
        }
        i = i + 1;
    }
    proof {
        assert(ds.take(docs@.len() as int) =~= ds);
    }
    out
}

/// One invocation of the rebuild, between loading the snapshot and writing
/// it back: the index being refreshed, the ids this invocation will
/// migrate, and the progress counters the caller observes.
pub struct RebuildRun {
    pub index: vector_lite::VectorLite<768>,
    pub pending: Vec<String>,
    pub cursor: usize,
    pub batch_size: usize,
    pub total: usize,
    pub migrated: usize,
}

impl RebuildRun {
    /// The run's bookkeeping stays consistent: the cursor splits `pending`
    /// into done and waiting, and the migrated counter cannot overflow by
    /// finishing the run.
    pub open spec fn wf(self) -> bool {
        &&& index_wf(self.index)
        &&& self.cursor <= self.pending@.len()
        &&& self.batch_size >= 1
        &&& self.migrated + (self.pending@.len() - self.cursor) <= usize::MAX
    }

    /// Whether this invocation has processed everything it planned to.
    pub fn is_done(&self) -> (r: bool)
        requires
            self.wf(),
        ensures
            r == (self.cursor == self.pending@.len()),
    {
        self.cursor == self.pending.len()
    }
}

/// Plan one rebuild invocation over a freshly loaded (or fresh, empty)
/// index: the watermark is the index's entry count, the first `watermark`
/// canonical ids are taken as already migrated, and at most
/// `batch_size * max_batches` of the rest are planned for this invocation.
pub fn rebuild_begin(
    index: vector_lite::VectorLite<768>,
    docs: &Vec<DocInfo>,
    batch_size: usize,
    max_batches: usize,
) -> (r: RebuildRun)
    requires
        index_wf(index),
        batch_size >= 1,
        batch_size as nat * max_batches as nat <= usize::MAX as nat,
    ensures
        r.wf(),
        r.index == index,
        r.total as nat == canonical_vids(docs@).len(),
        r.migrated == index_ids(index).len(),
        r.cursor == 0,
        r.batch_size == batch_size,
        strs_view(r.pending@) == canonical_vids(docs@)
            .skip(min(index_ids(index).len() as int, canonical_vids(docs@).len() as int))
            .take(min((batch_size * max_batches) as int,
                canonical_vids(docs@).len() - min(index_ids(index).len() as int, canonical_vids(docs@).len() as int))),
{
    let ghost canon = canonical_vids(docs@);
    let mut ids = canonical_ids(docs);
    let total = ids.len();
    let watermark = index_len(&index);
    let cap = batch_size * max_batches;

    let start = if watermark < total { watermark } else { total };
    let span = if total - start < cap { total - start } else { cap };

    let mut pending: Vec<String> = Vec::new();
    let mut k: usize = 0;
    proof {
        assert(strs_view(pending@) =~= canon.skip(start as int).take(0));
    }
    while k < span
        invariant
            k <= span,
            start + span <= total,
            total == ids@.len(),
            strs_view(ids@) == canon,
            strs_view(pending@) == canon.skip(start as int).take(k as int),
        decreases span - k,
    {
        let ghost pending0 = pending@;
        let id = ids[start + k].clone();
        pending.push(id);
        proof {
            lemma_strs_view_push(pending0, pending@.last());
            assert(strs_view(ids@)[start as int + k] == ids@[start as int + k]@);
            assert(canon.skip(start as int)[k as int] == canon[start as int + k]);
            assert(strs_view(pending@) =~= canon.skip(start as int).take(k as int + 1));
        }
        k = k + 1;
    }

    let r = RebuildRun {
        index,
        pending,
        cursor: 0,
        batch_size,
        total,
        migrated: watermark,
    };
    proof {
        assert(strs_view(r.pending@) =~= canon.skip(start as int).take(span as int));
        assert(r.migrated + (r.pending@.len() - r.cursor) <= usize::MAX) by {
            if watermark < total {
                assert(span <= total - start);
            } else {
                assert(span == 0);
            }
        }
    }
    r
}

/// The next batch of vector ids to migrate: up to `batch_size` ids from the
/// cursor on, in canonical order. The caller fetches their vectors from the
/// remote index and hands both to `rebuild_apply`.
pub fn next_batch(run: &RebuildRun) -> (r: Vec<String>)
    requires
        run.wf(),
    ensures
        strs_view(r@) == strs_view(run.pending@)
            .subrange(run.cursor as int,
                run.cursor + min(run.batch_size as int, run.pending@.len() - run.cursor)),
{
    let n = run.pending.len();
    let left = n - run.cursor;
    let k = if run.batch_size < left { run.batch_size } else { left };
    let mut out: Vec<String> = Vec::new();
    let mut i: usize = 0;
    proof {
        assert(strs_view(out@) =~= strs_view(run.pending@)
            .subrange(run.cursor as int, run.cursor as int));
    }
    while i < k
        invariant
            i <= k,
            n == run.pending@.len(),
            run.cursor + k <= n,
            strs_view(out@) == strs_view(run.pending@)
                .subrange(run.cursor as int, run.cursor + i),
        decreases k - i,
    {
        let ghost out0 = out@;
        let id = run.pending[run.cursor + i].clone();
        out.push(id);
        proof {
            lemma_strs_view_push(out0, out@.last());
            assert(strs_view(run.pending@)[run.cursor + i as int] == run.pending@[run.cursor + i as int]@);
            assert(strs_view(out@) =~= strs_view(run.pending@)
                .subrange(run.cursor as int, run.cursor + i + 1));
        }
        i = i + 1;
    }
    out
}

/// Migrate one batch: pair the planned ids with the vectors the caller
/// fetched for them, insert each pair into the local index, and hand back
/// the durable rows to upsert — `(vector_id, document_id, vector)`, the
/// document id decoded from the vector id. Where the remote returned fewer
/// vectors than ids were asked, the unpaired ids are skipped (their index
/// entries stay missing and a later invocation revisits them), but the
/// whole batch still counts as visited.
///
/// The batch's ids must be distinct and not yet in the index: this is the
/// watermark scheme's standing assumption — the skipped prefix accounts for
/// everything already migrated, so what remains is new.
pub fn rebuild_apply(run: &mut RebuildRun, vectors: Vec<vector_lite::Vector<768>>) -> (rows: Vec<EmbedRow>)
    requires
        old(run).wf(),
        ({
            let k = min(old(run).batch_size as int, old(run).pending@.len() - old(run).cursor);
            let batch = strs_view(old(run).pending@).subrange(old(run).cursor as int, old(run).cursor + k);
            &&& forall|i: int| 0 <= i < k ==> !index_ids(old(run).index).contains(#[trigger] batch[i])
            &&& forall|i: int, j: int| 0 <= i < j < k ==> batch[i] != batch[j]
        }),
    ensures
        final(run).wf(),
        ({
            let k = min(old(run).batch_size as int, old(run).pending@.len() - old(run).cursor);
            let m = min(k, vectors@.len() as int);
            let batch = strs_view(old(run).pending@).subrange(old(run).cursor as int, old(run).cursor + k);
            &&& final(run).cursor == old(run).cursor + k
            &&& final(run).migrated == old(run).migrated + k
            &&& final(run).pending == old(run).pending
            &&& final(run).batch_size == old(run).batch_size
            &&& final(run).total == old(run).total
            &&& index_ids(final(run).index) == index_ids(old(run).index).union(batch.take(m).to_set())
            &&& rows@.len() == m
            &&& forall|i: int| 0 <= i < m ==> {
                let row = #[trigger] rows@[i];
                &&& row.vector_id@ == batch[i]
                &&& row.document_id@ == doc_of(batch[i])
                &&& row.vector == vectors@[i]
            }
        }),
{
    let ghost pend = strs_view(old(run).pending@);
    let ghost c0 = run.cursor as int;
    let ghost ids0 = index_ids(old(run).index);
    let pn = run.pending.len();
    let left = pn - run.cursor;
    let k = if run.batch_size < left { run.batch_size } else { left };
    let ghost batch = pend.subrange(c0, c0 + k as int);
    proof {
        assert(k as int == min(old(run).batch_size as int, old(run).pending@.len() - old(run).cursor));
    }

    let mut vectors = vectors;
    let mut rows: Vec<EmbedRow> = Vec::new();
    let mut i: usize = 0;
    let ghost nv = vectors@.len() as int;
    let ghost vs0 = vectors@;
    proof {
        assert(pend.subrange(c0, c0).to_set() =~= Set::<Seq<char>>::empty());
        assert(ids0.union(Set::<Seq<char>>::empty()) =~= ids0);
    }
    while i < k
        invariant
            i <= k,
            run.cursor == old(run).cursor,
            pn == run.pending@.len(),
            run.cursor + k <= pn,
            run.pending == old(run).pending,
            run.batch_size == old(run).batch_size,
            run.total == old(run).total,
            run.migrated == old(run).migrated,
            pend == strs_view(run.pending@),
            c0 == run.cursor as int,
            ids0 == index_ids(old(run).index),
            batch == pend.subrange(c0, c0 + k as int),
            forall|t: int| 0 <= t < k ==> !ids0.contains(#[trigger] batch[t]),
            forall|t: int, u: int| 0 <= t < u < k ==> batch[t] != batch[u],
            index_wf(run.index),
            nv == vs0.len(),
            vectors@ == vs0.skip(min(i as int, nv)),
            index_ids(run.index) == ids0.union(
                pend.subrange(c0, c0 + min(i as int, nv)).to_set()),
            rows@.len() == min(i as int, nv),
            forall|t: int| 0 <= t < rows@.len() ==> {
                let row = #[trigger] rows@[t];
                &&& row.vector_id@ == pend[c0 + t]
                &&& row.document_id@ == doc_of(pend[c0 + t])
                &&& row.vector == vs0[t]
            },
        decreases k - i,
    {
        if vectors.len() > 0 {
            let vector = vectors.remove(0);
            let vid = run.pending[run.cursor + i].clone();
            let doc = document_of(vid.as_str());
            proof {
                assert(vs0.skip(min(i as int, nv)).remove(0) =~= vs0.skip(min(i as int + 1, nv)));
                assert(vs0.skip(min(i as int, nv))[0] == vs0[i as int]);
                assert(pend[c0 + i as int] == run.pending@[run.cursor + i as int]@);
                // the id about to be inserted is new: not in the index as the
                // invocation found it, nor among this batch's earlier ids
                assert(batch[i as int] == pend[c0 + i as int]);
                assert(!ids0.contains(pend[c0 + i as int]));
                let sub = pend.subrange(c0, c0 + min(i as int, nv));
                assert(!sub.to_set().contains(pend[c0 + i as int])) by {
                    if sub.to_set().contains(pend[c0 + i as int]) {
                        assert(sub.contains(pend[c0 + i as int]));
                        let t = choose|t: int| 0 <= t < sub.len() && #[trigger] sub[t] == pend[c0 + i as int];
                        assert(batch[t] == pend[c0 + t]);
                        assert(batch[t] == batch[i as int]);
                    }
                }
                assert(!index_ids(run.index).contains(pend[c0 + i as int]));
            }
            let vcopy = clone_vector(&vector);
            insert_entry(&mut run.index, vcopy, vid.clone());
            rows.push(EmbedRow { vector_id: vid, document_id: doc, vector });
            proof {
                let sub = pend.subrange(c0, c0 + i as int);
                assert(pend.subrange(c0, c0 + i + 1) =~= sub.push(pend[c0 + i as int]));
                sub.lemma_push_to_set_commute(pend[c0 + i as int]);
                assert(ids0.union(sub.to_set()).insert(pend[c0 + i as int])
                    =~= ids0.union(sub.push(pend[c0 + i as int]).to_set()));
            }
        } else {
            proof {
                assert(min(i as int, nv) == nv && min(i as int + 1, nv) == nv);
                assert(pend.subrange(c0, c0 + min(i as int, nv)) == pend.subrange(c0, c0 + min(i as int + 1, nv)));
            }
        }
        i = i + 1;
    }
    run.cursor = run.cursor + k;
    run.migrated = run.migrated + k;
    proof {
        let kk = min(old(run).batch_size as int, old(run).pending@.len() - old(run).cursor);
        let m = min(kk, vs0.len() as int);
        assert(k as int == kk);
        assert(pend.subrange(c0, c0 + kk).take(m) =~= pend.subrange(c0, c0 + m));
        assert(index_ids(run.index) == ids0.union(pend.subrange(c0, c0 + m).to_set()));
    }
    rows
}

/// Close the invocation: serialize the refreshed index into the snapshot
/// blob and report `(total, migrated)`, so the caller re-invokes the
/// rebuild until `migrated == total`.
pub fn rebuild_finish(run: RebuildRun) -> (r: (Vec<u8>, usize, usize))
    requires
        run.wf(),
    ensures
        snapshot_well_formed(r.0@),
        snapshot_ids(r.0@) == index_ids(run.index),
        r.1 == run.total,
        r.2 == run.migrated,
{
    let bytes = save_snapshot(&run.index);
    (bytes, run.total, run.migrated)
}

/// Migrating the next span of a distinct canonical list advances the synced
/// prefix exactly: an index that holds the first `w` canonical ids, after
/// gaining the next `span` of them, holds the first `w + span`, and its
/// entry count — the next invocation's watermark — is exactly `w + span`.
/// Re-running a converged rebuild (`span == 0`) therefore changes nothing.
pub proof fn lemma_rebuild_progress(canon: Seq<Seq<char>>, w: int, span: int)
    requires
        0 <= w,
        0 <= span,
        w + span <= canon.len(),
        forall|i: int, j: int| 0 <= i < j < canon.len() ==> canon[i] != canon[j],
    ensures
        canon.take(w).to_set().union(canon.subrange(w, w + span).to_set())
            == canon.take(w + span).to_set(),
        canon.take(w + span).to_set().len() == w + span,
        canon.take(w + span).to_set().finite(),
    decreases span,
{
    if span == 0 {
        assert(canon.subrange(w, w).to_set() =~= Set::<Seq<char>>::empty());
        assert(canon.take(w).to_set().union(Set::<Seq<char>>::empty()) =~= canon.take(w).to_set());
        lemma_distinct_prefix_card(canon, w);
    } else {
        lemma_rebuild_progress(canon, w, span - 1);
        let a = canon.subrange(w, w + span - 1);
        assert(canon.subrange(w, w + span) =~= a.push(canon[w + span - 1]));
        a.lemma_push_to_set_commute(canon[w + span - 1]);
        assert(canon.take(w + span) =~= canon.take(w + span - 1).push(canon[w + span - 1]));
        canon.take(w + span - 1).lemma_push_to_set_commute(canon[w + span - 1]);
        assert(canon.take(w).to_set().union(canon.subrange(w, w + span).to_set())
            =~= canon.take(w + span).to_set());
        lemma_distinct_prefix_card(canon, w + span);
    }
}

/// Rebuild idempotence: once the watermark has reached the canonical total,
/// a new invocation plans no ids at all — so no batch is fetched, no
/// durable row is emitted, and the snapshot written back holds exactly the
/// entries it was loaded with.
pub proof fn lemma_converged_rebuild_plans_nothing(canon: Seq<Seq<char>>, watermark: int, cap: int)
    requires
        watermark >= canon.len(),
        0 <= cap,
    ensures
        canon.skip(min(watermark, canon.len() as int))
            .take(min(cap, canon.len() - min(watermark, canon.len() as int)))
            =~= Seq::<Seq<char>>::empty(),
{
    assert(min(watermark, canon.len() as int) == canon.len());
    assert(canon.skip(canon.len() as int) =~= Seq::<Seq<char>>::empty());
}

/// A distinct sequence's prefix of length `n` has exactly `n` distinct
/// elements.
proof fn lemma_distinct_prefix_card(canon: Seq<Seq<char>>, n: int)
    requires
        0 <= n <= canon.len(),
        forall|i: int, j: int| 0 <= i < j < canon.len() ==> canon[i] != canon[j],
    ensures
        canon.take(n).to_set().finite(),
        canon.take(n).to_set().len() == n,
    decreases n,
{
    if n == 0 {
        assert(canon.take(0).to_set() =~= Set::<Seq<char>>::empty());
    } else {
        lemma_distinct_prefix_card(canon, n - 1);
        assert(canon.take(n) =~= canon.take(n - 1).push(canon[n - 1]));
        canon.take(n - 1).lemma_push_to_set_commute(canon[n - 1]);
        assert(!canon.take(n - 1).to_set().contains(canon[n - 1])) by {
            if canon.take(n - 1).to_set().contains(canon[n - 1]) {
                assert(canon.take(n - 1).contains(canon[n - 1]));
                let i = choose|i: int| 0 <= i < canon.take(n - 1).len()
                    && #[trigger] canon.take(n - 1)[i] == canon[n - 1];
                assert(canon[i] == canon[n - 1]);
            }
        }
    }
}

} // verus!
