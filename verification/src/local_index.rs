//! The local approximate-nearest-neighbor index.
//!
//! The structure itself comes from the `vector_lite` crate; this module
//! states what its operations do to the set of live entry ids, and builds
//! the verified index operations of the library on top of those statements.
//! The index is reloaded from a serialized snapshot at the start of any
//! operation that needs it and written back in full at the end.

use vstd::prelude::*;
use vstd::math::min;
use vector_lite::ANNIndexOwned;

verus! {

#[verifier::external_type_specification]
#[verifier::external_body]
pub struct ExVectorLite<const N: usize>(vector_lite::VectorLite<N>);

#[verifier::external_type_specification]
#[verifier::external_body]
pub struct ExVector<const N: usize>(vector_lite::Vector<N>);

/// The ids of the live (non-deleted) entries of a local index.
pub uninterp spec fn index_ids(idx: vector_lite::VectorLite<768>) -> Set<Seq<char>>;

/// The ids of the live entries encoded in a serialized snapshot.
pub uninterp spec fn snapshot_ids(bytes: Seq<u8>) -> Set<Seq<char>>;

/// Whether a byte string is a well-formed serialized snapshot: one that
/// decodes to an index whose search trees hold exactly its live entries,
/// each once per tree — the shape every snapshot this library writes has.
pub uninterp spec fn snapshot_well_formed(bytes: Seq<u8>) -> bool;

/// Every index this library builds or loads satisfies this: the set of live
/// entry ids is finite, so its cardinality can serve as the rebuild watermark.
pub open spec fn index_wf(idx: vector_lite::VectorLite<768>) -> bool {
    index_ids(idx).finite()
}

/// Relies on vector_lite::VectorLite::new: a freshly built index holds no
/// entries (its backing id-to-vector map starts empty).
#[verifier::external_body]
fn vl_new(num_trees: usize, max_leaf_size: usize) -> (r: vector_lite::VectorLite<768>)
    ensures
        index_ids(r) == Set::<Seq<char>>::empty(),
{
    vector_lite::VectorLite::new(num_trees, max_leaf_size)
}

/// Relies on vector_lite::VectorLite::len: the number of live entries, that
/// is the size of the backing id-to-vector map.
#[verifier::external_body]
fn vl_len(idx: &vector_lite::VectorLite<768>) -> (r: usize)
    ensures
        r == index_ids(*idx).len(),
{
    idx.len()
}

/// Relies on vector_lite::VectorLite::insert (via ANNIndexOwned): the
/// backing id-to-vector map gains `id`, and so does every search tree. The
/// id must be new to the index: re-inserting a live id under a different
/// vector strands a stale copy in the trees (a later delete routes by the
/// current vector), and a stranded id makes a later search panic. One
/// exposure the opaque vectors leave unstatable: a leaf whose entries all
/// share one vector cannot be split, so inserting more identical vectors
/// than a leaf holds would not return; real embeddings differ.
#[verifier::external_body]
pub(crate) fn insert_entry(idx: &mut vector_lite::VectorLite<768>, vector: vector_lite::Vector<768>, id: String)
    requires
        !index_ids(*old(idx)).contains(id@),
    ensures
        index_ids(*final(idx)) == index_ids(*old(idx)).insert(id@),
{
    idx.insert(vector, id)
}

/// Relies on vector_lite::VectorLite::delete_by_id: removes the entry with
/// that id from the backing map and reports whether one was there.
#[verifier::external_body]
pub(crate) fn delete_entry(idx: &mut vector_lite::VectorLite<768>, id: &str) -> (r: bool)
    ensures
        index_ids(*final(idx)) == index_ids(*old(idx)).remove(id@),
        r == index_ids(*old(idx)).contains(id@),
{
    idx.delete_by_id(id)
}

/// Relies on vector_lite::Vector's derived Clone: the copy holds the same
/// coordinates as the original (Vector's own equality is bytewise).
#[verifier::external_body]
pub(crate) fn clone_vector(v: &vector_lite::Vector<768>) -> (r: vector_lite::Vector<768>)
    ensures
        r == *v,
{
    v.clone()
}

/// Relies on vector_lite::VectorLite::to_bytes and from_bytes: bincode
/// round-trips the index, so whatever bytes come out decode to an index
/// with the same live entries.
#[verifier::external_body]
fn vl_to_bytes(idx: &vector_lite::VectorLite<768>) -> (r: Vec<u8>)
    ensures
        snapshot_well_formed(r@),
        snapshot_ids(r@) == index_ids(*idx),
{
    idx.to_bytes()
}

/// Relies on vector_lite::VectorLite::from_bytes: decodes a snapshot back
/// into an index with exactly the entries the snapshot holds. Panics on
/// malformed bytes, so those are excluded here.
#[verifier::external_body]
fn vl_from_bytes(bytes: &Vec<u8>) -> (r: vector_lite::VectorLite<768>)
    requires
        snapshot_well_formed(bytes@),
    ensures
        index_ids(r).finite(),
        index_ids(r) == snapshot_ids(bytes@),
{
    vector_lite::VectorLite::from_bytes(bytes)
}

/// A fresh, empty local index, with the tree shape every snapshot in the
/// system is built with.
pub fn empty_index() -> (r: vector_lite::VectorLite<768>)
    ensures
        index_wf(r),
        index_ids(r) == Set::<Seq<char>>::empty(),
{
    vl_new(4, 20)
}

/// The number of live entries; the rebuild path reads this as its watermark.
pub fn index_len(idx: &vector_lite::VectorLite<768>) -> (r: usize)
    ensures
        r == index_ids(*idx).len(),
{
    vl_len(idx)
}

/// Serialize the index into a snapshot blob.
pub fn save_snapshot(idx: &vector_lite::VectorLite<768>) -> (r: Vec<u8>)
    ensures
        snapshot_well_formed(r@),
        snapshot_ids(r@) == index_ids(*idx),
{
    vl_to_bytes(idx)
}

/// Load an index back from a snapshot blob.
pub fn load_snapshot(bytes: &Vec<u8>) -> (r: vector_lite::VectorLite<768>)
    requires
        snapshot_well_formed(bytes@),
    ensures
        index_wf(r),
        index_ids(r) == snapshot_ids(bytes@),
{
    vl_from_bytes(bytes)
}

/// Serializing an index and loading the result back yields an index with
/// the same live entries: one full save/reload cycle, as every operation
/// performs between invocations.
pub fn reload_snapshot(idx: &vector_lite::VectorLite<768>) -> (r: vector_lite::VectorLite<768>)
    ensures
        index_wf(r),
        index_ids(r) == index_ids(*idx),
{
    let bytes = save_snapshot(idx);
    load_snapshot(&bytes)
}

/// Relies on vector_lite::VectorLite::search_with_metric with the cosine
/// metric: up to `top_k` live entries, each id paired with the bit pattern
/// of its similarity score. Which entries come back, and in what order, is
/// not promised (randomized trees, a hash set) — but enough are: every
/// live entry sits in every tree, one tree walk visits at least
/// `min(top_k, entries)` of them, and the deduplicated candidates are cut
/// to `top_k`. One exposure the opaque vectors leave unstatable: a
/// zero-norm query or entry makes the cosine undefined and the structure's
/// own score sort panic; embedding vectors have nonzero norm.
#[verifier::external_body]
fn vl_search(
    idx: &vector_lite::VectorLite<768>,
    query: &vector_lite::Vector<768>,
    top_k: usize,
) -> (r: Vec<(String, u32)>)
    ensures
        r@.len() <= top_k,
        r@.len() >= min(top_k as int, index_ids(*idx).len() as int),
        forall|i: int| 0 <= i < r@.len() ==> index_ids(*idx).contains((#[trigger] r@[i]).0@),
        forall|i: int, j: int| 0 <= i < j < r@.len() ==> r@[i].0@ != r@[j].0@,
{
    idx.search_with_metric(query, top_k, vector_lite::ScoreMetric::Cosine)
        .into_iter()
        .map(|p| (p.0, p.1.to_bits()))
        .collect()
}

/// Query the local index for up to `top_k` nearest entries by cosine
/// similarity. Each entry id comes paired with the raw bit pattern of its
/// similarity score; turning that into an order-preserving rank (and any
/// defensive re-sort) is the caller's concern. The structure is approximate
/// and randomized, so only this much holds of every outcome: the results
/// are distinct live entries, at most `top_k` of them — and no fewer than
/// `top_k` allows, so a query against a populated index cannot come back
/// empty-handed.
pub fn search_entries(
    idx: &vector_lite::VectorLite<768>,
    query: &vector_lite::Vector<768>,
    top_k: usize,
) -> (r: Vec<(String, u32)>)
    ensures
        r@.len() <= top_k,
        r@.len() >= min(top_k as int, index_ids(*idx).len() as int),
        forall|i: int| 0 <= i < r@.len() ==> index_ids(*idx).contains((#[trigger] r@[i]).0@),
        forall|i: int, j: int| 0 <= i < j < r@.len() ==> r@[i].0@ != r@[j].0@,
{
    vl_search(idx, query, top_k)
}

} // verus!
