//! Laws of the retrieval subsystem that span several operations, stated and
//! proved over the same spec functions the operations' contracts use.

use vstd::prelude::*;
use crate::rag::{Chunk, DocumentRec, RagStore, col_match, find_col};
use crate::search::{ranks_before, valid_selection};

verus! {

/// Deleting a collection removes all of its documents and chunks, and a
/// subsequent lookup under the deleted collection's key finds nothing, so
/// `get_collection` reports `CollectionNotFound`.
///
/// The premises are exactly what `delete_collection` ensures on success; the
/// key must address only the deleted collection (an identifier never names a
/// second collection, since identifiers and names are unique — the one
/// exception would be a key that is one collection's identifier and another's
/// name at once).
pub proof fn lemma_delete_cascades(
    pre: RagStore,
    post: RagStore,
    key: Seq<char>,
    j: int,
    cid: Seq<char>,
)
    requires
        pre.wf(),
        j == find_col(pre.collections@, key),
        0 <= j < pre.collections@.len(),
        cid == pre.collections@[j].id@,
        post.collections@ == pre.collections@.remove(j),
        post.documents@ == pre.documents@.filter(|d: DocumentRec| d.collection_id@ != cid),
        post.chunks@ == pre.chunks@.filter(|c: Chunk| c.collection_id@ != cid),
        forall|i: int|
            0 <= i < pre.collections@.len() && i != j ==> !col_match(
                #[trigger] pre.collections@[i],
                key,
            ),
    ensures
        forall|i: int|
            0 <= i < post.documents@.len() ==> (#[trigger] post.documents@[i]).collection_id@
                != cid,
        forall|i: int|
            0 <= i < post.chunks@.len() ==> (#[trigger] post.chunks@[i]).collection_id@ != cid,
        find_col(post.collections@, key) == post.collections@.len(),
{
    broadcast use vstd::seq_lib::group_filter_ensures;

    let keep_d = |d: DocumentRec| d.collection_id@ != cid;
    let keep_c = |c: Chunk| c.collection_id@ != cid;
    assert forall|i: int|
        0 <= i < post.documents@.len() implies (#[trigger] post.documents@[i]).collection_id@
        != cid by {
        pre.documents@.lemma_filter_pred(keep_d, i);
    }
    assert forall|i: int|
        0 <= i < post.chunks@.len() implies (#[trigger] post.chunks@[i]).collection_id@ != cid by {
        pre.chunks@.lemma_filter_pred(keep_c, i);
    }
    assert forall|i: int| 0 <= i < post.collections@.len() implies !col_match(
        #[trigger] post.collections@[i],
        key,
    ) by {
        let p = if i < j {
            i
        } else {
            i + 1
        };
        assert(post.collections@[i] == pre.collections@[p]);
    }
    crate::rag::lemma_find_col_determined(
        post.collections@,
        key,
        post.collections@.len() as int,
    );
}

/// Lexical ranking with the query's tokens present in exactly one candidate:
/// that candidate is returned first (and alone), and every candidate without
/// a matching token is excluded entirely.
///
/// The premises are exactly what `simple_text_search` ensures about its
/// selection; its own contract already pins each reported score to the match
/// count over the token count.
pub proof fn lemma_lexical_single_match(scores: Seq<int>, top_k: int, sel: Seq<int>, w: int)
    requires
        valid_selection(scores, top_k, 0, sel),
        top_k >= 1,
        0 <= w < scores.len(),
        scores[w] > 0,
        forall|i: int| 0 <= i < scores.len() && i != w ==> #[trigger] scores[i] <= 0,
    ensures
        sel.len() == 1,
        sel[0] == w,
{
    assert forall|k: int| 0 <= k < sel.len() implies #[trigger] sel[k] == w by {
        assert(scores[sel[k]] > 0);
    }
    if sel.len() >= 2 {
        assert(ranks_before(scores, sel[0], sel[1]));
        assert(false);
    }
    if !sel.contains(w) {
        assert(sel.len() == top_k);
        assert(sel.len() >= 1);
        assert(sel[0] == w);
        assert(sel.contains(w));
    }
    assert(sel.len() >= 1);
    assert(sel[0] == w);
}

/// Semantic ranking with one candidate scoring strictly above every other:
/// any ranking outcome with at least one place lists that candidate first,
/// carrying its score.
///
/// The premises are exactly what `rank_scored_chunks` ensures about its
/// selection, instantiated for a query whose embedding equals one chunk's
/// stored vector and is not colinear with any other — there the dominant
/// score is the cosine of identical vectors, computed outside this crate.
pub proof fn lemma_dominant_first(scores: Seq<int>, top_k: int, floor: int, sel: Seq<int>, w: int)
    requires
        valid_selection(scores, top_k, floor, sel),
        top_k >= 1,
        0 <= w < scores.len(),
        scores[w] > floor,
        forall|i: int| 0 <= i < scores.len() && i != w ==> #[trigger] scores[i] < scores[w],
    ensures
        sel.len() >= 1,
        sel[0] == w,
{
    if !sel.contains(w) {
        assert(sel.len() == top_k);
        assert(ranks_before(scores, sel[0], w));
        if sel[0] == w {
            assert(sel.contains(w));
        } else {
            assert(scores[sel[0]] < scores[w]);
        }
        assert(false);
    }
    let p = choose|p: int| 0 <= p < sel.len() && sel[p] == w;
    if sel[0] != w {
        assert(p > 0);
        assert(ranks_before(scores, sel[0], sel[p]));
        assert(scores[sel[0]] < scores[w]);
        assert(false);
    }
}

} // verus!
