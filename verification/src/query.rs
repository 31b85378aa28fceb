//! The query engine's merge step.
//!
//! A similarity backend answers a query with up to `top_k` chunk-level hits
//! `(vector_id, score)`. This module collapses those hits into a ranked,
//! deduplicated list of parent documents: hits are grouped by document id,
//! each document keeps the full list of its matching chunks and its highest
//! score, documents are ordered by that highest score, and the list is cut
//! to the best `max_docs` documents. Scores arrive as order-preserving
//! integer ranks (higher means more similar); how a backend's raw similarity
//! score maps onto a rank is the caller's concern.
//!
//! Documents tied on their highest score keep their first-appearance
//! order: the merge ranks by highest score first, first appearance second,
//! a strict order that pins the result completely.

use vstd::prelude::*;
use vstd::seq_lib::group_to_multiset_ensures;

use crate::models::DocInfo;
use crate::vector_id::{doc_of, well_formed_vid, tail_of, digits_val};
use crate::vector_id::{document_of, parse_vector_id};

verus! {

/// How many documents a merged result may hold.
pub const RESULT_DOC_LIMIT: usize = 5;

/// One chunk-level hit as a backend reports it: the chunk's vector id and
/// an order-preserving integer rank of its similarity score.
pub struct ChunkHit {
    pub vector_id: String,
    pub score: u32,
}

/// One matching chunk within a grouped document.
#[derive(Clone, Copy, Debug, PartialEq, Eq, Structural)]
pub struct ChunkRef {
    pub chunk_index: usize,
    pub score: u32,
}

/// One document of the merged result: its id, the best score among its
/// matching chunks, and those chunks.
pub struct DocGroup {
    pub document_id: String,
    pub max_score: u32,
    pub chunks: Vec<ChunkRef>,
}

/// The chunk index encoded in a vector id, 0 when the id is not well formed.
pub open spec fn chunk_ix_of(s: Seq<char>) -> usize {
    if well_formed_vid(s) {
        digits_val(tail_of(s)) as usize
    } else {
        0
    }
}

pub open spec fn hit_doc(h: ChunkHit) -> Seq<char> {
    doc_of(h.vector_id@)
}

pub open spec fn hit_ref(h: ChunkHit) -> ChunkRef {
    ChunkRef { chunk_index: chunk_ix_of(h.vector_id@), score: h.score }
}

/// The distinct document ids of a hit list, in order of first appearance.
pub open spec fn docs_of(hits: Seq<ChunkHit>) -> Seq<Seq<char>>
    decreases hits.len(),
{
    if hits.len() == 0 {
        Seq::empty()
    } else {
        let prev = docs_of(hits.drop_last());
        if prev.contains(hit_doc(hits.last())) {
            prev
        } else {
            prev.push(hit_doc(hits.last()))
        }
    }
}

/// The highest score among the hits of document `d` (0 when it has none).
pub open spec fn doc_max(hits: Seq<ChunkHit>, d: Seq<char>) -> u32
    decreases hits.len(),
{
    if hits.len() == 0 {
        0
    } else {
        let rest = doc_max(hits.drop_last(), d);
        if hit_doc(hits.last()) == d && hits.last().score > rest {
            hits.last().score
        } else {
            rest
        }
    }
}

/// The chunks of document `d`, in hit-list order.
pub open spec fn doc_chunks(hits: Seq<ChunkHit>, d: Seq<char>) -> Seq<ChunkRef>
    decreases hits.len(),
{
    if hits.len() == 0 {
        Seq::empty()
    } else {
        let rest = doc_chunks(hits.drop_last(), d);
        if hit_doc(hits.last()) == d {
            rest.push(hit_ref(hits.last()))
        } else {
            rest
        }
    }
}

pub open spec fn groups_docs(gs: Seq<DocGroup>) -> Seq<Seq<char>> {
    gs.map_values(|g: DocGroup| g.document_id@)
}

pub open spec fn chunks_sorted_desc(cs: Seq<ChunkRef>) -> bool {
    forall|a: int, b: int| 0 <= a < b < cs.len() ==> cs[a].score >= cs[b].score
}

pub open spec fn groups_sorted_desc(gs: Seq<DocGroup>) -> bool {
    forall|a: int, b: int| 0 <= a < b < gs.len() ==> gs[a].max_score >= gs[b].max_score
}

/// Whether some group of `gs` carries document id `d`.
pub open spec fn keeps_doc(gs: Seq<DocGroup>, d: Seq<char>) -> bool {
    exists|i: int| 0 <= i < gs.len() && gs[i].document_id@ == d
}

/// Where a document stands in first-appearance order.
pub open spec fn doc_rank(hits: Seq<ChunkHit>, d: Seq<char>) -> int {
    docs_of(hits).index_of(d)
}

/// The merge's ranking: the higher best score first; documents tied on
/// their best score keep their first-appearance order.
pub open spec fn merge_order(hits: Seq<ChunkHit>, a: DocGroup, b: DocGroup) -> bool {
    ||| a.max_score > b.max_score
    ||| (a.max_score == b.max_score
        && doc_rank(hits, a.document_id@) < doc_rank(hits, b.document_id@))
}

/// A group agrees with the hit list on its document's best score and chunks
/// (the chunks up to order).
pub open spec fn group_ok(hits: Seq<ChunkHit>, g: DocGroup) -> bool {
    &&& g.max_score == doc_max(hits, g.document_id@)
    &&& g.chunks@.to_multiset() == doc_chunks(hits, g.document_id@).to_multiset()
}

/// A document absent from the distinct-document list has no hits at all.
proof fn lemma_absent_doc(hits: Seq<ChunkHit>, d: Seq<char>)
    requires
        !docs_of(hits).contains(d),
    ensures
        doc_max(hits, d) == 0,
        doc_chunks(hits, d) == Seq::<ChunkRef>::empty(),
    decreases hits.len(),
{
    if hits.len() > 0 {
        let prev = docs_of(hits.drop_last());
        assert(docs_of(hits) == if prev.contains(hit_doc(hits.last())) {
            prev
        } else {
            prev.push(hit_doc(hits.last()))
        });
        assert(!prev.contains(d)) by {
            if prev.contains(d) {
                let i = choose|i: int| 0 <= i < prev.len() && prev[i] == d;
                assert(docs_of(hits)[i] == d);
            }
        }
        assert(hit_doc(hits.last()) != d) by {
            if hit_doc(hits.last()) == d {
                assert(docs_of(hits).contains(d)) by {
                    if prev.contains(hit_doc(hits.last())) {
                    } else {
                        assert(docs_of(hits).last() == d);
                    }
                }
            }
        }
        lemma_absent_doc(hits.drop_last(), d);
    }
}

/// The distinct-document list holds no duplicates.
proof fn lemma_docs_of_distinct(hits: Seq<ChunkHit>)
    ensures
        forall|i: int, j: int| 0 <= i < j < docs_of(hits).len() ==> docs_of(hits)[i] != docs_of(hits)[j],
    decreases hits.len(),
{
    if hits.len() > 0 {
        lemma_docs_of_distinct(hits.drop_last());
        let prev = docs_of(hits.drop_last());
        if !prev.contains(hit_doc(hits.last())) {
            assert forall|i: int, j: int| 0 <= i < j < docs_of(hits).len()
                implies docs_of(hits)[i] != docs_of(hits)[j] by {
                if j < prev.len() {
                } else {
                    assert(docs_of(hits)[j] == hit_doc(hits.last()));
                    assert(prev.contains(prev[i]));
                }
            }
        }
    }
}

/// A document's rank is its position in the distinct-document list.
proof fn lemma_doc_rank_at(hits: Seq<ChunkHit>, k: int)
    requires
        0 <= k < docs_of(hits).len(),
    ensures
        doc_rank(hits, docs_of(hits)[k]) == k,
{
    lemma_docs_of_distinct(hits);
    let s = docs_of(hits);
    let d = s[k];
    assert(exists|j: int| 0 <= j < s.len() && s[j] == d) by {
        assert(0 <= k < s.len() && s[k] == d);
    }
    let i = s.index_of(d);
    assert(0 <= i < s.len() && s[i] == d);
    if i != k {
        assert(false);
    }
}

/// The chunk index encoded in a vector id; 0 for an id that does not decode.
pub fn chunk_index_of(vector_id: &str) -> (r: usize)
    ensures
        r == chunk_ix_of(vector_id@),
{
    match parse_vector_id(vector_id) {
        Some(p) => p.1,
        None => 0,
    }
}

fn vec_index_mut(v: &mut Vec<DocGroup>, i: usize) -> (element: &mut DocGroup)
    requires
        i < old(v).len(),
    ensures
        *element == old(v)@[i as int],
        final(v)@ == old(v)@.update(i as int, *final(element)),
{
    &mut v[i]
}

/// Group a hit list by document id, in order of first appearance, tracking
/// per document the best score and the chunk list in hit order.
fn group_hits(hits: &Vec<ChunkHit>) -> (r: Vec<DocGroup>)
    ensures
        groups_docs(r@) == docs_of(hits@),
        forall|k: int| 0 <= k < r@.len() ==> (#[trigger] r@[k]).max_score == doc_max(hits@, r@[k].document_id@),
        forall|k: int| 0 <= k < r@.len() ==> (#[trigger] r@[k]).chunks@ == doc_chunks(hits@, r@[k].document_id@),
{
    let ghost h = hits@;
    let mut groups: Vec<DocGroup> = Vec::new();
    let mut idx: usize = 0;
    proof {
        assert(groups_docs(groups@) =~= docs_of(h.take(0)));
        assert(h.take(0) =~= Seq::<ChunkHit>::empty());
    }
    while idx < hits.len()
        invariant
            idx <= hits.len(),
            h == hits@,
            groups_docs(groups@) == docs_of(h.take(idx as int)),
            forall|k: int| 0 <= k < groups@.len()
                ==> (#[trigger] groups@[k]).max_score == doc_max(h.take(idx as int), groups@[k].document_id@),
            forall|k: int| 0 <= k < groups@.len()
                ==> (#[trigger] groups@[k]).chunks@ == doc_chunks(h.take(idx as int), groups@[k].document_id@),
        decreases hits.len() - idx,
    {
        let doc = document_of(hits[idx].vector_id.as_str());
        let cix = chunk_index_of(hits[idx].vector_id.as_str());
        let score = hits[idx].score;
        let cref = ChunkRef { chunk_index: cix, score };
        proof {
            assert(h.take(idx as int + 1).drop_last() =~= h.take(idx as int));
            assert(h.take(idx as int + 1).last() == h[idx as int]);
            assert(hit_doc(h[idx as int]) == doc@);
            assert(hit_ref(h[idx as int]) == cref);
        }

        let mut j: usize = 0;
        let mut found: bool = false;
        while j < groups.len() && !found
            invariant
                j <= groups@.len(),
                !found ==> forall|k: int| 0 <= k < j ==> (#[trigger] groups@[k]).document_id@ != doc@,
                found ==> j < groups@.len() && groups@[j as int].document_id@ == doc@,
            decreases groups@.len() - j + (if found { 0int } else { 1int }),
        {
            if groups[j].document_id == doc {
                found = true;
            } else {
                j = j + 1;
            }
        }

        if found {
            proof {
                // the new hit belongs to an already-seen document
                assert(docs_of(h.take(idx as int))[j as int] == doc@);
                assert(docs_of(h.take(idx as int)).contains(doc@));
                assert(docs_of(h.take(idx as int + 1)) == docs_of(h.take(idx as int)));
            }
            let ghost old_groups = groups@;
            let g = vec_index_mut(&mut groups, j);
            g.chunks.push(cref);
            if score > g.max_score {
                g.max_score = score;
            }
            proof {
                assert(groups_docs(groups@) =~= docs_of(h.take(idx as int + 1)));
                assert forall|k: int| 0 <= k < groups@.len()
                    implies (#[trigger] groups@[k]).max_score == doc_max(h.take(idx as int + 1), groups@[k].document_id@)
                        && groups@[k].chunks@ == doc_chunks(h.take(idx as int + 1), groups@[k].document_id@) by {
                    if k == j {
                        assert(groups@[k].document_id@ == doc@);
                        assert(groups@[k].chunks@ == old_groups[k].chunks@.push(cref));
                    } else {
                        assert(groups@[k] == old_groups[k]);
                        assert(old_groups[k].document_id@ != doc@) by {
                            assert(groups_docs(old_groups)[k] == old_groups[k].document_id@);
                            assert(groups_docs(old_groups)[j as int] == doc@);
                            lemma_docs_of_distinct(h.take(idx as int));
                        }
                    }
                }
            }
        } else {
            proof {
                // no group holds this document, so it is new
                assert(!docs_of(h.take(idx as int)).contains(doc@)) by {
                    if docs_of(h.take(idx as int)).contains(doc@) {
                        let k = choose|k: int| 0 <= k < docs_of(h.take(idx as int)).len()
                            && docs_of(h.take(idx as int))[k] == doc@;
                        assert(groups_docs(groups@)[k] == groups@[k].document_id@);
                    }
                }
                lemma_absent_doc(h.take(idx as int), doc@);
            }
            let ghost old_groups = groups@;
            let mut chunks: Vec<ChunkRef> = Vec::new();
            chunks.push(cref);
            let newg = DocGroup { document_id: doc, max_score: score, chunks };
            groups.push(newg);
            proof {
                assert(groups_docs(groups@) =~= docs_of(h.take(idx as int + 1)));
                assert forall|k: int| 0 <= k < groups@.len()
                    implies (#[trigger] groups@[k]).max_score == doc_max(h.take(idx as int + 1), groups@[k].document_id@)
                        && groups@[k].chunks@ == doc_chunks(h.take(idx as int + 1), groups@[k].document_id@) by {
                    if k == groups@.len() - 1 {
                        assert(groups@[k].document_id@ == doc@);
                        assert(groups@[k].chunks@ =~= Seq::<ChunkRef>::empty().push(cref));
                        assert(doc_chunks(h.take(idx as int + 1), doc@)
                            == doc_chunks(h.take(idx as int), doc@).push(cref));
                        assert(doc_max(h.take(idx as int), doc@) == 0);
                    } else {
                        assert(groups@[k] == old_groups[k]);
                        assert(old_groups[k].document_id@ != doc@) by {
                            assert(groups_docs(old_groups)[k] == old_groups[k].document_id@);
                        }
                    }
                }
            }
        }
        idx = idx + 1;
    }
    proof {
        assert(h.take(hits@.len() as int) =~= h);
    }
    groups
}

/// A group's best score and document id agree with the hit list, and its
/// chunk list is exactly the document's hits in hit order.
spec fn groups_exact(h: Seq<ChunkHit>, gs: Seq<DocGroup>) -> bool {
    forall|k: int| 0 <= k < gs.len() ==> {
        let g = #[trigger] gs[k];
        &&& docs_of(h).contains(g.document_id@)
        &&& g.max_score == doc_max(h, g.document_id@)
        &&& g.chunks@ == doc_chunks(h, g.document_id@)
    }
}

spec fn docs_distinct(gs: Seq<DocGroup>) -> bool {
    forall|i: int, j: int| 0 <= i < j < gs.len() ==> gs[i].document_id@ != gs[j].document_id@
}

spec fn docs_disjoint(a: Seq<DocGroup>, b: Seq<DocGroup>) -> bool {
    forall|i: int, j: int| 0 <= i < a.len() && 0 <= j < b.len()
        ==> a[i].document_id@ != b[j].document_id@
}

spec fn covers(h: Seq<ChunkHit>, a: Seq<DocGroup>, b: Seq<DocGroup>) -> bool {
    forall|d: Seq<char>| #[trigger] docs_of(h).contains(d) ==> keeps_doc(a, d) || keeps_doc(b, d)
}

fn sort_chunks(v: &mut Vec<ChunkRef>)
    ensures
        final(v)@.to_multiset() == old(v)@.to_multiset(),
        chunks_sorted_desc(final(v)@),
{
    broadcast use group_to_multiset_ensures;
    broadcast use vstd::multiset::group_multiset_axioms;

    let mut out: Vec<ChunkRef> = Vec::new();
    proof {
        assert(out@.to_multiset().add(v@.to_multiset()) =~= old(v)@.to_multiset());
    }
    while v.len() > 0
        invariant
            out@.to_multiset().add(v@.to_multiset()) == old(v)@.to_multiset(),
            chunks_sorted_desc(out@),
        decreases v@.len(),
    {
        let ghost v0 = v@;
        let ghost out0 = out@;
        let c = v.pop().unwrap();
        proof {
            assert(v@ =~= v0.remove(v0.len() - 1));
            assert(v0[v0.len() - 1] == c);
            vstd::seq_lib::to_multiset_remove(v0, v0.len() - 1);
        }
        let mut pos: usize = 0;
        while pos < out.len() && out[pos].score >= c.score
            invariant
                pos <= out@.len(),
                out@ == out0,
                forall|k: int| 0 <= k < pos ==> (#[trigger] out@[k]).score >= c.score,
            decreases out@.len() - pos,
        {
            pos = pos + 1;
        }
        out.insert(pos, c);
        proof {
            assert(out@ == out0.insert(pos as int, c));
            vstd::seq_lib::to_multiset_insert(out0, pos as int, c);
            assert(out@.to_multiset().add(v@.to_multiset()) =~= old(v)@.to_multiset()) by {
                broadcast use vstd::multiset::group_multiset_axioms;
                vstd::seq_lib::to_multiset_contains(v0, c);
                assert(v0.contains(c)) by {
                    assert(v0[v0.len() - 1] == c);
                }
                assert(v0.to_multiset().count(c) > 0);
                assert(out@.to_multiset() == out0.to_multiset().insert(c));
                assert(v@.to_multiset() == v0.to_multiset().remove(c));
            }
            assert(chunks_sorted_desc(out@)) by {
                assert forall|a: int, b: int| 0 <= a < b < out@.len()
                    implies out@[a].score >= out@[b].score by {
                    if a < pos && b > pos {
                        assert(out@[a] == out0[a]);
                        assert(out@[b] == out0[b - 1]);
                    } else if a == pos && b > pos {
                        assert(out@[b] == out0[b - 1]);
                        assert(out0[pos as int].score < c.score || pos as int >= out0.len());
                    } else if b == pos {
                        assert(out@[a] == out0[a]);
                    } else if a < pos && b < pos {
                        assert(out@[a] == out0[a] && out@[b] == out0[b]);
                    } else {
                        assert(out@[a] == out0[a - 1] && out@[b] == out0[b - 1]);
                    }
                }
            }
        }
    }
    *v = out;
}

/// Collapse chunk-level hits into at most `max_docs` documents: group by
/// document id, keep each document's best score and full chunk list, order
/// documents by best score descending, and keep only the best `max_docs`.
/// Each kept document's chunk list is ordered by score descending.
///
/// An empty hit list yields an empty result. Documents tied on their best
/// score keep their first-appearance order, and when documents are cut,
/// every document cut away ranks below every document kept under that same
/// order.
pub fn merge_hits(hits: &Vec<ChunkHit>, max_docs: usize) -> (r: Vec<DocGroup>)
    ensures
        docs_of(hits@).len() <= max_docs ==> r@.len() == docs_of(hits@).len(),
        docs_of(hits@).len() > max_docs ==> r@.len() == max_docs,
        forall|i: int| 0 <= i < r@.len() ==> docs_of(hits@).contains((#[trigger] r@[i]).document_id@),
        forall|i: int, j: int| 0 <= i < j < r@.len() ==> r@[i].document_id@ != r@[j].document_id@,
        forall|i: int| 0 <= i < r@.len() ==> group_ok(hits@, #[trigger] r@[i]),
        forall|i: int| 0 <= i < r@.len() ==> chunks_sorted_desc((#[trigger] r@[i]).chunks@),
        groups_sorted_desc(r@),
        forall|i: int, j: int| 0 <= i < j < r@.len() ==> merge_order(hits@, r@[i], r@[j]),
        forall|d: Seq<char>| #[trigger] docs_of(hits@).contains(d) && !keeps_doc(r@, d)
            ==> r@.len() == max_docs
                && (forall|i: int| 0 <= i < r@.len()
                    ==> doc_max(hits@, d) < (#[trigger] r@[i]).max_score
                        || (doc_max(hits@, d) == r@[i].max_score
                            && doc_rank(hits@, r@[i].document_id@) < doc_rank(hits@, d))),
{
    let ghost h = hits@;
    let mut groups = group_hits(hits);
    proof {
        lemma_docs_of_distinct(h);
        assert forall|k: int| 0 <= k < groups@.len()
            implies docs_of(h).contains((#[trigger] groups@[k]).document_id@) by {
            assert(groups_docs(groups@)[k] == groups@[k].document_id@);
        }
        assert(docs_distinct(groups@)) by {
            assert forall|i: int, j: int| 0 <= i < j < groups@.len()
                implies groups@[i].document_id@ != groups@[j].document_id@ by {
                assert(groups_docs(groups@)[i] == groups@[i].document_id@);
                assert(groups_docs(groups@)[j] == groups@[j].document_id@);
            }
        }
        assert(covers(h, Seq::<DocGroup>::empty(), groups@)) by {
            assert forall|d: Seq<char>| #[trigger] docs_of(h).contains(d)
                implies keeps_doc(groups@, d) by {
                let k = choose|k: int| 0 <= k < docs_of(h).len() && docs_of(h)[k] == d;
                assert(groups_docs(groups@)[k] == groups@[k].document_id@);
            }
        }
        assert forall|a: int, b: int| 0 <= a < b < groups@.len()
            implies doc_rank(h, groups@[a].document_id@) < doc_rank(h, groups@[b].document_id@) by {
            lemma_doc_rank_at(h, a);
            lemma_doc_rank_at(h, b);
            assert(groups_docs(groups@)[a] == groups@[a].document_id@);
            assert(groups_docs(groups@)[b] == groups@[b].document_id@);
        }
    }

    // order the documents by best score, descending; ties keep their
    // first-appearance order
    let mut sorted: Vec<DocGroup> = Vec::new();
    while groups.len() > 0
        invariant
            h == hits@,
            groups_exact(h, sorted@),
            groups_exact(h, groups@),
            docs_distinct(sorted@),
            docs_distinct(groups@),
            docs_disjoint(sorted@, groups@),
            covers(h, sorted@, groups@),
            groups_sorted_desc(sorted@),
            sorted@.len() + groups@.len() == docs_of(h).len(),
            forall|a: int, b: int| 0 <= a < b < groups@.len()
                ==> doc_rank(h, groups@[a].document_id@) < doc_rank(h, groups@[b].document_id@),
            forall|a: int, b: int| 0 <= a < b < sorted@.len() ==> merge_order(h, sorted@[a], sorted@[b]),
            forall|a: int, b: int| 0 <= a < sorted@.len() && 0 <= b < groups@.len()
                && (#[trigger] sorted@[a]).max_score == (#[trigger] groups@[b]).max_score
                ==> doc_rank(h, sorted@[a].document_id@) < doc_rank(h, groups@[b].document_id@),
        decreases groups@.len(),
    {
        let ghost groups0 = groups@;
        let ghost sorted0 = sorted@;
        let g = groups.remove(0);
        proof {
            assert(g == groups0[0]);
            assert(groups@ == groups0.remove(0));
            assert(forall|j: int| 0 <= j < groups@.len() ==> groups@[j] == groups0[j + 1]);
        }
        let mut pos: usize = 0;
        while pos < sorted.len() && sorted[pos].max_score >= g.max_score
            invariant
                pos <= sorted@.len(),
                sorted@ == sorted0,
                forall|k: int| 0 <= k < pos ==> (#[trigger] sorted@[k]).max_score >= g.max_score,
            decreases sorted@.len() - pos,
        {
            pos = pos + 1;
        }
        sorted.insert(pos, g);
        proof {
            let s1 = sorted@;
            assert(s1 == sorted0.insert(pos as int, g));
            assert forall|k: int| 0 <= k < s1.len()
                implies s1[k] == (if k < pos { sorted0[k] } else if k == pos { g } else {
                    sorted0[k - 1]
                }) by {}
            assert(groups_exact(h, s1));
            assert(docs_distinct(s1));
            assert(docs_disjoint(s1, groups@)) by {
                assert(forall|j: int| 0 <= j < groups@.len() ==> groups@[j] == groups0[j + 1]);
            }
            assert forall|a: int, b: int| 0 <= a < b < s1.len()
                implies merge_order(h, s1[a], s1[b]) by {
                if b == pos {
                    // an element left of the insertion point scores at least
                    // as high, and on a tie it came from an earlier document
                    assert(s1[a] == sorted0[a]);
                    assert(sorted0[a].max_score >= g.max_score);
                    if sorted0[a].max_score == g.max_score {
                        assert(doc_rank(h, sorted0[a].document_id@) < doc_rank(h, groups0[0].document_id@));
                    }
                } else if a == pos && b > pos {
                    // everything from the insertion point on scores strictly
                    // lower than the inserted group
                    assert(s1[b] == sorted0[b - 1]);
                    assert((pos as int) < sorted0.len());
                    assert(sorted0[pos as int].max_score < g.max_score);
                    if b - 1 > pos {
                        assert(merge_order(h, sorted0[pos as int], sorted0[b - 1]));
                    }
                    assert(sorted0[b - 1].max_score < g.max_score);
                } else if a < pos && b > pos {
                    assert(s1[a] == sorted0[a] && s1[b] == sorted0[b - 1]);
                    assert(merge_order(h, sorted0[a], sorted0[b - 1]));
                } else if b < pos {
                    assert(s1[a] == sorted0[a] && s1[b] == sorted0[b]);
                } else {
                    assert(s1[a] == sorted0[a - 1] && s1[b] == sorted0[b - 1]);
                }
            }
            assert(groups_sorted_desc(s1)) by {
                assert forall|a: int, b: int| 0 <= a < b < s1.len()
                    implies s1[a].max_score >= s1[b].max_score by {
                    assert(merge_order(h, s1[a], s1[b]));
                }
            }
            assert forall|a: int, b: int| 0 <= a < s1.len() && 0 <= b < groups@.len()
                && (#[trigger] s1[a]).max_score == (#[trigger] groups@[b]).max_score
                implies doc_rank(h, s1[a].document_id@) < doc_rank(h, groups@[b].document_id@) by {
                assert(groups@[b] == groups0[b + 1]);
                if a == pos {
                    assert(doc_rank(h, groups0[0].document_id@) < doc_rank(h, groups0[b + 1].document_id@));
                } else if a < pos {
                    assert(s1[a] == sorted0[a]);
                } else {
                    assert(s1[a] == sorted0[a - 1]);
                }
            }
            assert(covers(h, s1, groups@)) by {
                assert forall|d: Seq<char>| #[trigger] docs_of(h).contains(d)
                    implies keeps_doc(s1, d) || keeps_doc(groups@, d) by {
                    if keeps_doc(sorted0, d) {
                        let k = choose|k: int| 0 <= k < sorted0.len() && sorted0[k].document_id@ == d;
                        if k < pos {
                            assert(s1[k].document_id@ == d);
                        } else {
                            assert(s1[k + 1].document_id@ == d);
                        }
                    } else if keeps_doc(groups0, d) {
                        let k = choose|k: int| 0 <= k < groups0.len() && groups0[k].document_id@ == d;
                        if k == 0 {
                            assert(s1[pos as int].document_id@ == d);
                        } else {
                            assert(groups@[k - 1].document_id@ == d);
                        }
                    }
                }
            }
        }
    }
    proof {
        assert(sorted@.len() == docs_of(h).len());
        assert(covers(h, sorted@, groups@));
        assert(forall|d: Seq<char>| #[trigger] docs_of(h).contains(d) ==> keeps_doc(sorted@, d));
    }

    // keep only the best `max_docs` documents
    let ghost full = sorted@;
    if sorted.len() > max_docs {
        sorted.truncate(max_docs);
        proof { assert(sorted@ =~= full.take(max_docs as int)); }
    }
    let ghost kept = sorted@;
    proof {
        assert(forall|k: int| 0 <= k < kept.len() ==> kept[k] == full[k]);
        assert forall|d: Seq<char>| #[trigger] docs_of(h).contains(d) && !keeps_doc(kept, d)
            implies kept.len() == max_docs
                && (forall|i: int| 0 <= i < kept.len()
                    ==> doc_max(h, d) < (#[trigger] kept[i]).max_score
                        || (doc_max(h, d) == kept[i].max_score
                            && doc_rank(h, kept[i].document_id@) < doc_rank(h, d))) by {
            let p = choose|p: int| 0 <= p < full.len() && full[p].document_id@ == d;
            assert(p >= kept.len());
            assert(full.len() > max_docs ==> kept.len() == max_docs);
            assert(full[p].max_score == doc_max(h, d));
            assert forall|i: int| 0 <= i < kept.len()
                implies doc_max(h, d) < (#[trigger] kept[i]).max_score
                    || (doc_max(h, d) == kept[i].max_score
                        && doc_rank(h, kept[i].document_id@) < doc_rank(h, d)) by {
                assert(merge_order(h, full[i], full[p]));
            }
        }
    }

    // order each kept document's chunks by score, descending
    let mut k: usize = 0;
    while k < sorted.len()
        invariant
            h == hits@,
            sorted@.len() == kept.len(),
            k <= sorted@.len(),
            forall|i: int| k <= i < sorted@.len() ==> sorted@[i] == kept[i],
            forall|i: int| 0 <= i < k ==> (#[trigger] sorted@[i]).document_id == kept[i].document_id
                && sorted@[i].max_score == kept[i].max_score
                && sorted@[i].chunks@.to_multiset() == kept[i].chunks@.to_multiset()
                && chunks_sorted_desc(sorted@[i].chunks@),
        decreases sorted@.len() - k,
    {
        let g = vec_index_mut(&mut sorted, k);
        sort_chunks(&mut g.chunks);
        k = k + 1;
    }
    proof {
        assert forall|i: int| 0 <= i < sorted@.len() implies group_ok(h, #[trigger] sorted@[i]) by {
            assert(kept[i].max_score == doc_max(h, kept[i].document_id@));
            assert(kept[i].chunks@ == doc_chunks(h, kept[i].document_id@));
        }
        assert forall|i: int, j: int| 0 <= i < j < sorted@.len()
            implies merge_order(h, sorted@[i], sorted@[j]) by {
            assert(merge_order(h, kept[i], kept[j]));
            assert(sorted@[i].document_id@ == kept[i].document_id@);
            assert(sorted@[j].document_id@ == kept[j].document_id@);
        }
        assert forall|d: Seq<char>| #[trigger] docs_of(h).contains(d) && !keeps_doc(sorted@, d)
            implies sorted@.len() == max_docs
                && (forall|i: int| 0 <= i < sorted@.len()
                    ==> doc_max(h, d) < (#[trigger] sorted@[i]).max_score
                        || (doc_max(h, d) == sorted@[i].max_score
                            && doc_rank(h, sorted@[i].document_id@) < doc_rank(h, d))) by {
            assert(!keeps_doc(kept, d)) by {
                if keeps_doc(kept, d) {
                    let i = choose|i: int| 0 <= i < kept.len() && kept[i].document_id@ == d;
                    assert(sorted@[i].document_id@ == d);
                }
            }
            assert forall|i: int| 0 <= i < sorted@.len()
                implies doc_max(h, d) < (#[trigger] sorted@[i]).max_score
                    || (doc_max(h, d) == sorted@[i].max_score
                        && doc_rank(h, sorted@[i].document_id@) < doc_rank(h, d)) by {
                assert(sorted@[i].max_score == kept[i].max_score);
                assert(sorted@[i].document_id@ == kept[i].document_id@);
            }
        }
    }
    sorted
}

/// The merged documents paired with their metadata lookups, with every miss
/// dropped and order kept.
pub open spec fn assembled(groups: Seq<DocGroup>, lookups: Seq<Option<DocInfo>>) -> Seq<(DocInfo, u32)>
    decreases groups.len(),
{
    if groups.len() == 0 {
        Seq::empty()
    } else {
        let rest = assembled(groups.drop_last(), lookups.drop_last());
        match lookups.last() {
            Some(info) => rest.push((info, groups.last().max_score)),
            None => rest,
        }
    }
}

/// Pair each merged document with the outcome of its metadata lookup and
/// keep, in order, only the documents whose lookup found a row. A miss (or
/// an error treated as one) drops that document without failing the others.
pub fn assemble_results(groups: Vec<DocGroup>, lookups: Vec<Option<DocInfo>>) -> (r: Vec<(DocInfo, u32)>)
    requires
        groups@.len() == lookups@.len(),
    ensures
        r@ == assembled(groups@, lookups@),
{
    let ghost g0 = groups@;
    let ghost l0 = lookups@;
    let mut groups = groups;
    let mut lookups = lookups;
    let mut out: Vec<(DocInfo, u32)> = Vec::new();
    let mut i: usize = 0;
    let n = groups.len();
    proof {
        assert(out@ =~= assembled(g0.take(0), l0.take(0)));
        assert(g0.take(0) =~= Seq::<DocGroup>::empty());
    }
    while i < n
        invariant
            i <= n,
            n == g0.len(),
            g0.len() == l0.len(),
            groups@ == g0.skip(i as int),
            lookups@ == l0.skip(i as int),
            out@ == assembled(g0.take(i as int), l0.take(i as int)),
        decreases n - i,
    {
        let g = groups.remove(0);
        let lk = lookups.remove(0);
        proof {
            assert(g0.skip(i as int)[0] == g0[i as int]);
            assert(l0.skip(i as int)[0] == l0[i as int]);
            assert(g0.skip(i as int).remove(0) =~= g0.skip(i as int + 1));
            assert(l0.skip(i as int).remove(0) =~= l0.skip(i as int + 1));
            assert(g0.take(i as int + 1).drop_last() =~= g0.take(i as int));
            assert(l0.take(i as int + 1).drop_last() =~= l0.take(i as int));
            assert(g0.take(i as int + 1).last() == g0[i as int]);
            assert(l0.take(i as int + 1).last() == l0[i as int]);
        }
        match lk {
            Some(info) => {
                out.push((info, g.max_score));
            },
            None => {},
        }
        i = i + 1;
    }
    proof {
        assert(g0.take(n as int) =~= g0);
        assert(l0.take(n as int) =~= l0);
    }
    out
}

} // verus!
