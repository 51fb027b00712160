//! The retrieval engine: scoring, ranking, and context assembly.
//!
//! A score is an integer count of millionths, so that one million stands for
//! a perfect score of one.  Candidates are ranked by score descending with
//! ties broken by original position, and the top `top_k` are kept; the
//! lexical strategy additionally drops every candidate that scored zero.

use vstd::prelude::*;
use vstd::pervasive::VecAdditionalExecFns;
use vstd::string::StrSliceExecFns;
use vstd::string::StringExecFns;
use crate::rag::{Chunk, RagError, RagStore, chunks_of, find_col, lemma_find_col};
use crate::text::{
    chars_of, contains_seq, contains_sub, fmt_millionths, join_with, lemma_str_views_push,
    lower_seq, score_text, str_views, string_of, to_lower, tokenize, views_of, ws_tokens,
};

verus! {

/// One ranked source: the chunk, its score in millionths, and the path of
/// the document it came from.
#[derive(Debug, Clone)]
pub struct QueryResult {
    pub chunk: Chunk,
    pub score: i64,
    pub document_path: String,
}

/// The outcome of a query: the generated answer and the ranked sources.
#[derive(Debug, Clone)]
pub struct RagQueryResponse {
    pub answer: String,
    pub sources: Vec<QueryResult>,
}

/// Two chunks hold the same data.
pub open spec fn chunk_like(a: Chunk, b: Chunk) -> bool {
    &&& a.id@ == b.id@
    &&& a.document_id@ == b.document_id@
    &&& a.collection_id@ == b.collection_id@
    &&& a.text@ == b.text@
    &&& a.embedding@ == b.embedding@
    &&& a.order == b.order
}

/// Candidate `a` ranks strictly before candidate `b`: a higher score, or an
/// equal score and an earlier position.
pub open spec fn ranks_before(scores: Seq<int>, a: int, b: int) -> bool {
    scores[a] > scores[b] || (scores[a] == scores[b] && a < b)
}

/// `sel` is the ranking outcome over `scores`: at most `top_k` candidate
/// positions, each scoring strictly more than `floor`, listed best first,
/// and leaving a qualifying candidate out only when all `top_k` places are
/// taken by candidates that rank before it.
pub open spec fn valid_selection(scores: Seq<int>, top_k: int, floor: int, sel: Seq<int>) -> bool {
    &&& sel.len() <= top_k
    &&& forall|k: int| 0 <= k < sel.len() ==> 0 <= #[trigger] sel[k] < scores.len()
    &&& forall|k: int| 0 <= k < sel.len() ==> scores[#[trigger] sel[k]] > floor
    &&& forall|k1: int, k2: int|
        0 <= k1 < k2 < sel.len() ==> ranks_before(scores, sel[k1], sel[k2])
    &&& forall|i: int|
        0 <= i < scores.len() && scores[i] > floor && !sel.contains(i) ==> sel.len() == top_k
            && forall|k: int| 0 <= k < sel.len() ==> ranks_before(scores, #[trigger] sel[k], i)
}

/// The positions of the ranked candidates: best score first, ties by
/// position, only scores strictly above `floor`, and at most `top_k` of them.
fn rank_indices(scores: &Vec<i64>, top_k: usize, floor_zero: bool) -> (r: Vec<usize>)
    ensures
        valid_selection(
            scores@.map_values(|s: i64| s as int),
            top_k as int,
            if floor_zero {
                0
            } else {
                i64::MIN - 1
            },
            r@.map_values(|i: usize| i as int),
        ),
{
    let ghost gscores = scores@.map_values(|s: i64| s as int);
    let ghost floor: int = if floor_zero {
        0
    } else {
        i64::MIN - 1
    };
    let n = scores.len();
    let mut used: Vec<bool> = Vec::new();
    let mut i: usize = 0;
    while i < n
        invariant
            i <= n,
            used@.len() == i,
            forall|k: int| 0 <= k < i ==> !(#[trigger] used@[k]),
        decreases n - i,
    {
        used.push(false);
        i = i + 1;
    }
    let mut sel: Vec<usize> = Vec::new();
    let ghost gsel = sel@.map_values(|x: usize| x as int);
    proof {
        assert(gsel =~= Seq::<int>::empty());
    }
    let mut t: usize = 0;
    while t < top_k
        invariant
            n == scores@.len(),
            gscores == scores@.map_values(|s: i64| s as int),
            floor == if floor_zero {
                0
            } else {
                i64::MIN - 1
            },
            used@.len() == n,
            t <= top_k,
            sel@.len() <= t,
            gsel == sel@.map_values(|x: usize| x as int),
            // membership bookkeeping
            forall|q: int| 0 <= q < n ==> (#[trigger] used@[q] <==> gsel.contains(q)),
            // selected entries are in range and above the floor
            forall|k: int| 0 <= k < gsel.len() ==> 0 <= #[trigger] gsel[k] < n,
            forall|k: int| 0 <= k < gsel.len() ==> gscores[#[trigger] gsel[k]] > floor,
            // best first
            forall|k1: int, k2: int|
                0 <= k1 < k2 < gsel.len() ==> ranks_before(gscores, gsel[k1], gsel[k2]),
            // every selected entry ranks before every unselected qualifier
            forall|k: int, q: int|
                0 <= k < gsel.len() && 0 <= q < n && !(#[trigger] used@[q]) && gscores[q] > floor
                    ==> ranks_before(gscores, #[trigger] gsel[k], q),
            // either every round so far picked one, or nothing is left
            sel@.len() == t || (forall|q: int|
                0 <= q < n && !(#[trigger] used@[q]) ==> gscores[q] <= floor),
        decreases top_k - t,
    {
        // find the best remaining candidate
        let mut best: usize = n;
        let mut j: usize = 0;
        while j < n
            invariant
                n == scores@.len(),
                gscores == scores@.map_values(|s: i64| s as int),
                floor == if floor_zero {
                    0
                } else {
                    i64::MIN - 1
                },
                used@.len() == n,
                j <= n,
                best <= n,
                best < n ==> best < j,
                best < n ==> !used@[best as int] && gscores[best as int] > floor,
                forall|q: int|
                    0 <= q < j && !(#[trigger] used@[q]) && gscores[q] > floor ==> best < n
                        && ranks_before(gscores, best as int, q) || q == best,
            decreases n - j,
        {
            let qualifies = !used[j] && (!floor_zero || scores[j] > 0);
            if qualifies {
                if best == n {
                    best = j;
                } else {
                    if scores[j] > scores[best] {
                        best = j;
                    }
                }
            }
            j = j + 1;
        }
        if best == n {
            // nothing qualifies any more
            proof {
                assert forall|q: int| 0 <= q < n && !(#[trigger] used@[q]) implies gscores[q]
                    <= floor by {
                    if gscores[q] > floor {
                        assert(ranks_before(gscores, best as int, q) || q == best as int);
                    }
                }
            }
            t = t + 1;
        } else {
            let ghost pre_sel = gsel;
            sel.push(best);
            proof {
                gsel = sel@.map_values(|x: usize| x as int);
                assert(gsel =~= pre_sel.push(best as int));
            }
            used.set(best, true);
            proof {
                assert forall|q: int| 0 <= q < n implies (#[trigger] used@[q] <==> gsel.contains(
                    q,
                )) by {
                    if q == best as int {
                        assert(gsel[gsel.len() - 1] == q);
                        assert(gsel.contains(q));
                    } else {
                        if gsel.contains(q) {
                            let w = choose|w: int| 0 <= w < gsel.len() && gsel[w] == q;
                            assert(w < gsel.len() - 1);
                            assert(pre_sel[w] == q);
                            assert(pre_sel.contains(q));
                        }
                        if pre_sel.contains(q) {
                            let w = choose|w: int| 0 <= w < pre_sel.len() && pre_sel[w] == q;
                            assert(gsel[w] == q);
                            assert(gsel.contains(q));
                        }
                    }
                }
            }
            t = t + 1;
        }
    }
    proof {
        assert forall|i2: int|
            0 <= i2 < gscores.len() && gscores[i2] > floor && !gsel.contains(i2) implies gsel.len()
            == top_k && (forall|k: int|
            0 <= k < gsel.len() ==> ranks_before(gscores, #[trigger] gsel[k], i2)) by {
            assert(!used@[i2]);
            assert(sel@.len() == t);
        }
    }
    sel
}

/// A copy of a chunk, field by field.
pub fn copy_chunk(c: &Chunk) -> (r: Chunk)
    ensures
        chunk_like(r, *c),
{
    Chunk {
        id: c.id.clone(),
        document_id: c.document_id.clone(),
        collection_id: c.collection_id.clone(),
        text: c.text.clone(),
        embedding: crate::text::copy_u32s(&c.embedding),
        order: c.order,
    }
}

/// Rank scored candidates and keep the top `top_k`.
///
/// `scores[i]` is the score of `chunks[i]` in millionths.  The result lists
/// the best-ranked candidates first, ties broken by original position; with
/// `drop_zero` every candidate scoring zero or less is excluded entirely.
pub fn rank_scored_chunks(
    chunks: &Vec<(Chunk, String)>,
    scores: &Vec<i64>,
    top_k: usize,
    drop_zero: bool,
) -> (r: Vec<QueryResult>)
    requires
        scores@.len() == chunks@.len(),
    ensures
        exists|sel: Seq<int>|
            #![trigger sel.len()]
            {
                &&& valid_selection(
                    scores@.map_values(|s: i64| s as int),
                    top_k as int,
                    if drop_zero {
                        0
                    } else {
                        i64::MIN - 1
                    },
                    sel,
                )
                &&& r@.len() == sel.len()
                &&& forall|k: int|
                    0 <= k < sel.len() ==> {
                        &&& chunk_like((#[trigger] r@[k]).chunk, chunks@[sel[k]].0)
                        &&& r@[k].document_path@ == chunks@[sel[k]].1@
                        &&& r@[k].score == scores@[sel[k]]
                    }
            },
{
    let picked = rank_indices(scores, top_k, drop_zero);
    let ghost sel = picked@.map_values(|i: usize| i as int);
    let m = picked.len();
    let mut r: Vec<QueryResult> = Vec::new();
    let mut k: usize = 0;
    while k < m
        invariant
            m == picked@.len(),
            sel == picked@.map_values(|i: usize| i as int),
            scores@.len() == chunks@.len(),
            forall|q: int| 0 <= q < sel.len() ==> 0 <= #[trigger] sel[q] < chunks@.len(),
            k <= m,
            r@.len() == k,
            forall|q: int|
                0 <= q < k ==> {
                    &&& chunk_like((#[trigger] r@[q]).chunk, chunks@[sel[q]].0)
                    &&& r@[q].document_path@ == chunks@[sel[q]].1@
                    &&& r@[q].score == scores@[sel[q]]
                },
        decreases m - k,
    {
        proof {
            assert(sel[k as int] == picked@[k as int] as int);
            assert(0 <= sel[k as int] < chunks@.len());
        }
        let idx = picked[k];
        let pair = &chunks[idx];
        r.push(
            QueryResult {
                chunk: copy_chunk(&pair.0),
                score: scores[idx],
                document_path: pair.1.clone(),
            },
        );
        k = k + 1;
    }
    r
}

/// Number of query tokens that occur in the lowered chunk text.
pub open spec fn lex_hits(toks: Seq<Seq<char>>, text_lower: Seq<char>) -> int {
    toks.filter(|t: Seq<char>| contains_seq(text_lower, t)).len() as int
}

/// The lexical score in millionths: the share of the query's
/// whitespace-delimited tokens (after ASCII lowering) that occur as
/// substrings of the lowered chunk text.  A chunk that matches at least one
/// token scores at least one millionth, so that rounding never turns a
/// positive score into an excluding zero.
pub open spec fn lex_score_millionths(query: Seq<char>, text: Seq<char>) -> int {
    let toks = ws_tokens(lower_seq(query));
    if toks.len() == 0 {
        0
    } else {
        let hits = lex_hits(toks, lower_seq(text));
        if hits == 0 {
            0
        } else {
            let scaled = hits * 1000000 / (toks.len() as int);
            if scaled == 0 {
                1
            } else {
                scaled
            }
        }
    }
}

/// The lexical score is positive exactly when some query token occurs in the
/// chunk text; so ranking with a zero floor excludes exactly the chunks
/// without a matching token.
pub proof fn lemma_lex_score_positive(query: Seq<char>, text: Seq<char>)
    ensures
        lex_score_millionths(query, text) > 0 <==> (ws_tokens(lower_seq(query)).len() > 0
            && lex_hits(ws_tokens(lower_seq(query)), lower_seq(text)) > 0),
        0 <= lex_score_millionths(query, text) <= 1000000,
{
    let toks = ws_tokens(lower_seq(query));
    if toks.len() > 0 {
        let hits = lex_hits(toks, lower_seq(text));
        toks.lemma_filter_len(|t: Seq<char>| contains_seq(lower_seq(text), t));
        assert(0 <= hits <= toks.len());
        if hits > 0 {
            assert(hits * 1000000 / (toks.len() as int) <= 1000000) by (nonlinear_arith)
                requires
                    0 < hits <= toks.len() as int,
            ;
            assert(hits * 1000000 / (toks.len() as int) >= 0) by (nonlinear_arith)
                requires
                    0 < hits,
                    0 < toks.len() as int,
            ;
        }
    }
}

/// The lexical scores of every candidate, in order.
pub open spec fn lex_scores(chunks: Seq<(Chunk, String)>, query: Seq<char>) -> Seq<int> {
    Seq::new(chunks.len(), |i: int| lex_score_millionths(query, chunks[i].0.text@))
}

/// The lexical score of one chunk text against the lowered query tokens.
fn lex_score_of(qtoks: &Vec<Vec<char>>, text: &str) -> (r: i64)
    ensures
        ({
            let toks = views_of(qtoks@);
            r as int == if toks.len() == 0 {
                0int
            } else {
                let hits = lex_hits(toks, lower_seq(text@));
                if hits == 0 {
                    0int
                } else {
                    let scaled = hits * 1000000 / (toks.len() as int);
                    if scaled == 0 {
                        1int
                    } else {
                        scaled
                    }
                }
            }
        }),
        0 <= r <= 1000000,
{
    let ghost toks = views_of(qtoks@);
    let ghost pred = |t: Seq<char>| contains_seq(lower_seq(text@), t);
    let nt = qtoks.len();
    if nt == 0 {
        return 0;
    }
    let tchars = chars_of(text);
    let tlow = to_lower(&tchars);
    let mut hits: usize = 0;
    let mut i: usize = 0;
    proof {
        assert(toks.subrange(0, 0).filter(pred) =~= Seq::<Seq<char>>::empty());
    }
    while i < nt
        invariant
            nt == qtoks@.len(),
            toks == views_of(qtoks@),
            tlow@ == lower_seq(text@),
            i <= nt,
            hits <= i,
            hits == toks.subrange(0, i as int).filter(pred).len(),
            pred == (|t: Seq<char>| contains_seq(lower_seq(text@), t)),
        decreases nt - i,
    {
        let ghost prefix = toks.subrange(0, i as int);
        proof {
            crate::rag::lemma_filter_push(prefix, pred, toks[i as int]);
            assert(prefix.push(toks[i as int]) =~= toks.subrange(0, i as int + 1));
        }
        if contains_sub(&tlow, &qtoks[i]) {
            hits = hits + 1;
        }
        i = i + 1;
    }
    proof {
        assert(toks.subrange(0, nt as int) =~= toks);
    }
    let score128: u128 = (hits as u128) * 1000000 / (nt as u128);
    proof {
        assert(hits as int * 1000000 / (nt as int) <= 1000000) by (nonlinear_arith)
            requires
                0 <= hits as int <= nt as int,
                1 <= nt as int,
        ;
        assert(score128 as int == hits as int * 1000000 / (nt as int));
    }
    if hits > 0 && score128 == 0 {
        1
    } else {
        score128 as i64
    }
}

/// Lexical search: score every candidate by token overlap with the query,
/// exclude the zero scores entirely, rank the rest best first (ties by
/// original position) and keep the top `top_k`.
pub fn simple_text_search(chunks: &Vec<(Chunk, String)>, query: &str, top_k: usize) -> (r: Vec<
    QueryResult,
>)
    ensures
        exists|sel: Seq<int>|
            #![trigger sel.len()]
            {
                &&& valid_selection(lex_scores(chunks@, query@), top_k as int, 0, sel)
                &&& r@.len() == sel.len()
                &&& forall|k: int|
                    0 <= k < sel.len() ==> {
                        &&& chunk_like((#[trigger] r@[k]).chunk, chunks@[sel[k]].0)
                        &&& r@[k].document_path@ == chunks@[sel[k]].1@
                        &&& r@[k].score as int == lex_score_millionths(
                            query@,
                            chunks@[sel[k]].0.text@,
                        )
                    }
            },
{
    let qchars = chars_of(query);
    let qlow = to_lower(&qchars);
    let qtoks = tokenize(&qlow);
    proof {
        assert(views_of(qtoks@) == ws_tokens(lower_seq(query@)));
    }
    let n = chunks.len();
    let mut scores: Vec<i64> = Vec::new();
    let mut i: usize = 0;
    while i < n
        invariant
            n == chunks@.len(),
            views_of(qtoks@) == ws_tokens(lower_seq(query@)),
            i <= n,
            scores@.len() == i,
            forall|q: int|
                0 <= q < i ==> (#[trigger] scores@[q]) as int == lex_score_millionths(
                    query@,
                    chunks@[q].0.text@,
                ),
        decreases n - i,
    {
        let s = lex_score_of(&qtoks, chunks[i].0.text.as_str());
        scores.push(s);
        i = i + 1;
    }
    let r = rank_scored_chunks(chunks, &scores, top_k, true);
    proof {
        assert(scores@.map_values(|s: i64| s as int) =~= lex_scores(chunks@, query@));
    }
    r
}

/// Whether any candidate carries a stored embedding.
pub fn has_any_embedding(chunks: &Vec<(Chunk, String)>) -> (r: bool)
    ensures
        r == exists|i: int|
            0 <= i < chunks@.len() && (#[trigger] chunks@[i]).0.embedding@.len() > 0,
{
    let n = chunks.len();
    let mut i: usize = 0;
    while i < n
        invariant
            n == chunks@.len(),
            i <= n,
            forall|q: int| 0 <= q < i ==> (#[trigger] chunks@[q]).0.embedding@.len() == 0,
        decreases n - i,
    {
        if chunks[i].0.embedding.len() > 0 {
            return true;
        }
        i = i + 1;
    }
    false
}

/// The candidates that carry a stored embedding, in order.
pub fn embedded_only(chunks: &Vec<(Chunk, String)>) -> (r: Vec<(Chunk, String)>)
    ensures
        r@.len() == chunks@.filter(|p: (Chunk, String)| p.0.embedding@.len() > 0).len(),
        forall|k: int|
            0 <= k < r@.len() ==> {
                let kept = chunks@.filter(|p: (Chunk, String)| p.0.embedding@.len() > 0);
                chunk_like((#[trigger] r@[k]).0, kept[k].0) && r@[k].1@ == kept[k].1@
            },
{
    let ghost pred = |p: (Chunk, String)| p.0.embedding@.len() > 0;
    let n = chunks.len();
    let mut r: Vec<(Chunk, String)> = Vec::new();
    let mut i: usize = 0;
    proof {
        assert(chunks@.subrange(0, 0).filter(pred) =~= Seq::<(Chunk, String)>::empty());
    }
    while i < n
        invariant
            n == chunks@.len(),
            i <= n,
            r@.len() == chunks@.subrange(0, i as int).filter(pred).len(),
            forall|k: int|
                0 <= k < r@.len() ==> {
                    let kept = chunks@.subrange(0, i as int).filter(pred);
                    chunk_like((#[trigger] r@[k]).0, kept[k].0) && r@[k].1@ == kept[k].1@
                },
            pred == (|p: (Chunk, String)| p.0.embedding@.len() > 0),
        decreases n - i,
    {
        let ghost prefix = chunks@.subrange(0, i as int);
        proof {
            crate::rag::lemma_filter_push(prefix, pred, chunks@[i as int]);
            assert(prefix.push(chunks@[i as int]) =~= chunks@.subrange(0, i as int + 1));
        }
        if chunks[i].0.embedding.len() > 0 {
            let pair = &chunks[i];
            r.push((copy_chunk(&pair.0), pair.1.clone()));
            proof {
                assert(chunks@.subrange(0, i as int + 1).filter(pred) =~= prefix.filter(
                    pred,
                ).push(chunks@[i as int]));
            }
        }
        i = i + 1;
    }
    proof {
        assert(chunks@.subrange(0, n as int) =~= chunks@);
    }
    r
}

/// Index of the first document with the given identifier, or `docs.len()`.
pub open spec fn find_doc(docs: Seq<crate::rag::DocumentRec>, did: Seq<char>) -> int
    decreases docs.len(),
{
    if docs.len() == 0 {
        0
    } else if docs[0].id@ == did {
        0
    } else {
        1 + find_doc(docs.drop_first(), did)
    }
}

/// The index found by a linear scan is `find_doc`.
proof fn lemma_find_doc_determined(docs: Seq<crate::rag::DocumentRec>, did: Seq<char>, k: int)
    requires
        0 <= k <= docs.len(),
        forall|i: int| 0 <= i < k ==> (#[trigger] docs[i]).id@ != did,
        k < docs.len() ==> docs[k].id@ == did,
    ensures
        find_doc(docs, did) == k,
    decreases docs.len(),
{
    if docs.len() == 0 {
    } else if docs[0].id@ == did {
        assert(k == 0);
    } else {
        assert(k >= 1);
        assert forall|i: int| 0 <= i < k - 1 implies (#[trigger] docs.drop_first()[i]).id@
            != did by {
            assert(docs.drop_first()[i] == docs[i + 1]);
        }
        lemma_find_doc_determined(docs.drop_first(), did, k - 1);
    }
}

/// The path recorded for the first document with the given identifier, or the
/// empty string when no document has it.
pub open spec fn path_of_doc(docs: Seq<crate::rag::DocumentRec>, did: Seq<char>) -> Seq<char> {
    if find_doc(docs, did) < docs.len() {
        docs[find_doc(docs, did)].path@
    } else {
        Seq::empty()
    }
}

/// What a query sees of the store: either the finished answer for a
/// collection without chunks, or the capped candidate list to score.
#[derive(Debug, Clone)]
pub enum Retrieval {
    Done(RagQueryResponse),
    Candidates(Vec<(Chunk, String)>),
}

impl RagStore {
    /// The path of the first document carrying this identifier.
    fn doc_path(&self, document_id: &str) -> (r: String)
        ensures
            r@ == path_of_doc(self.documents@, document_id@),
    {
        let n = self.documents.len();
        let mut i: usize = 0;
        while i < n
            invariant
                n == self.documents@.len(),
                i <= n,
                forall|q: int| 0 <= q < i ==> (#[trigger] self.documents@[q]).id@ != document_id@,
            decreases n - i,
        {
            if crate::text::str_eq(self.documents[i].id.as_str(), document_id) {
                proof {
                    lemma_find_doc_determined(self.documents@, document_id@, i as int);
                }
                return self.documents[i].path.clone();
            }
            i = i + 1;
        }
        proof {
            lemma_find_doc_determined(self.documents@, document_id@, n as int);
        }
        String::new()
    }

    /// The first `cap` chunks of collection `cid` (by store order), each
    /// paired with the path of its document.
    pub fn chunks_with_paths(&self, collection_id: &str, cap: usize) -> (r: Vec<(Chunk, String)>)
        ensures
            ({
                let all = chunks_of(self.chunks@, collection_id@);
                &&& r@.len() == if all.len() <= cap {
                    all.len() as int
                } else {
                    cap as int
                }
                &&& forall|k: int|
                    0 <= k < r@.len() ==> {
                        &&& chunk_like((#[trigger] r@[k]).0, all[k])
                        &&& r@[k].1@ == path_of_doc(self.documents@, all[k].document_id@)
                    }
            }),
    {
        let ghost pred = |c: Chunk| c.collection_id@ == collection_id@;
        let n = self.chunks.len();
        let mut r: Vec<(Chunk, String)> = Vec::new();
        let mut i: usize = 0;
        proof {
            assert(self.chunks@.subrange(0, 0).filter(pred) =~= Seq::<Chunk>::empty());
        }
        while i < n
            invariant
                n == self.chunks@.len(),
                i <= n,
                pred == (|c: Chunk| c.collection_id@ == collection_id@),
                ({
                    let part = self.chunks@.subrange(0, i as int).filter(pred);
                    &&& r@.len() == if part.len() <= cap {
                        part.len() as int
                    } else {
                        cap as int
                    }
                    &&& forall|k: int|
                        0 <= k < r@.len() ==> {
                            &&& chunk_like((#[trigger] r@[k]).0, part[k])
                            &&& r@[k].1@ == path_of_doc(self.documents@, part[k].document_id@)
                        }
                }),
            decreases n - i,
        {
            let ghost prefix = self.chunks@.subrange(0, i as int);
            proof {
                crate::rag::lemma_filter_push(prefix, pred, self.chunks@[i as int]);
                assert(prefix.push(self.chunks@[i as int]) =~= self.chunks@.subrange(
                    0,
                    i as int + 1,
                ));
                prefix.lemma_filter_len(pred);
            }
            if r.len() < cap && crate::text::str_eq(
                self.chunks[i].collection_id.as_str(),
                collection_id,
            ) {
                let path = self.doc_path(self.chunks[i].document_id.as_str());
                r.push((copy_chunk(&self.chunks[i]), path));
            }
            i = i + 1;
        }
        proof {
            assert(self.chunks@.subrange(0, n as int) =~= self.chunks@);
        }
        r
    }

    /// Resolve a collection and load its capped candidate set: up to ten
    /// times `top_k` chunks, in store order.  A collection without candidates
    /// finishes at once with the fixed no-documents answer and no sources —
    /// nothing is handed to the language model.
    pub fn begin_query(&self, id_or_name: &str, top_k: usize) -> (r: Result<Retrieval, RagError>)
        ensures
            match r {
                Ok(ret) => {
                    let j = find_col(self.collections@, id_or_name@);
                    let all = chunks_of(self.chunks@, self.collections@[j].id@);
                    let cap = 10 * top_k as int;
                    &&& j < self.collections@.len()
                    &&& match ret {
                        Retrieval::Done(resp) => {
                            &&& (all.len() == 0 || top_k == 0)
                            &&& resp.answer@ == "No documents found in this collection."@
                            &&& resp.sources@.len() == 0
                        },
                        Retrieval::Candidates(c) => {
                            &&& c@.len() > 0
                            &&& c@.len() == if all.len() <= cap {
                                all.len() as int
                            } else {
                                cap
                            }
                            &&& forall|k: int|
                                0 <= k < c@.len() ==> {
                                    &&& chunk_like((#[trigger] c@[k]).0, all[k])
                                    &&& c@[k].1@ == path_of_doc(
                                        self.documents@,
                                        all[k].document_id@,
                                    )
                                }
                        },
                    }
                },
                Err(e) => e matches RagError::CollectionNotFound(s) && s@ == id_or_name@
                    && find_col(self.collections@, id_or_name@) == self.collections@.len(),
            },
    {
        let j = self.find_index(id_or_name);
        proof {
            lemma_find_col(self.collections@, id_or_name@);
        }
        if j == self.collections.len() {
            return Err(RagError::CollectionNotFound(String::from_str(id_or_name)));
        }
        let cap: usize = if top_k > usize::MAX / 10 {
            usize::MAX
        } else {
            10 * top_k
        };
        let cid = self.collections[j].id.clone();
        let nch = self.chunks.len();
        let cands = self.chunks_with_paths(cid.as_str(), cap);
        if cands.len() == 0 {
            proof {
                let all = chunks_of(self.chunks@, cid@);
                if all.len() > 0 && top_k > 0 {
                    assert(cap >= 10);
                }
            }
            Ok(Retrieval::Done(empty_collection_response()))
        } else {
            proof {
                let all = chunks_of(self.chunks@, cid@);
                if top_k <= usize::MAX / 10 {
                    assert(cap == 10 * top_k as int);
                } else {
                    assert(all.len() <= self.chunks@.len()) by {
                        self.chunks@.lemma_filter_len(
                            |c: Chunk| c.collection_id@ == cid@,
                        );
                    }
                    assert(self.chunks@.len() == nch);
                    assert(all.len() <= cap);
                }
            }
            Ok(Retrieval::Candidates(cands))
        }
    }
}

/// The labeled context section of one ranked source.
pub open spec fn source_block(q: QueryResult) -> Seq<char> {
    "--- Source: "@ + q.document_path@ + " (score: "@ + score_text(q.score as int) + ") ---\n"@
        + q.chunk.text@
}

/// Build the context block handed to the language model: one labeled section
/// per ranked source, joined by blank lines.
pub fn build_context(results: &Vec<QueryResult>) -> (r: String)
    requires
        forall|i: int| 0 <= i < results@.len() ==> (#[trigger] results@[i]).score > i64::MIN,
    ensures
        r@ == join_with(results@.map_values(|q: QueryResult| source_block(q)), "\n\n"@),
{
    let n = results.len();
    let mut blocks: Vec<String> = Vec::new();
    let mut i: usize = 0;
    proof {
        assert(str_views(blocks@) =~= results@.subrange(0, 0).map_values(
            |q: QueryResult| source_block(q),
        ));
    }
    while i < n
        invariant
            n == results@.len(),
            i <= n,
            forall|q: int| 0 <= q < n ==> (#[trigger] results@[q]).score > i64::MIN,
            str_views(blocks@) == results@.subrange(0, i as int).map_values(
                |q: QueryResult| source_block(q),
            ),
        decreases n - i,
    {
        let item = &results[i];
        let mut block = String::from_str("--- Source: ");
        block.append(item.document_path.as_str());
        block.append(" (score: ");
        let digits = fmt_millionths(item.score);
        let digits_str = string_of(&digits);
        block.append(digits_str.as_str());
        block.append(") ---\n");
        block.append(item.chunk.text.as_str());
        let ghost pre_blocks = blocks@;
        blocks.push(block);
        proof {
            lemma_str_views_push(pre_blocks, blocks@.last());
            assert(blocks@.last()@ == source_block(results@[i as int]));
            assert(str_views(blocks@) =~= results@.subrange(0, i as int + 1).map_values(
                |q: QueryResult| source_block(q),
            ));
        }
        i = i + 1;
    }
    proof {
        assert(results@.subrange(0, n as int) =~= results@);
    }
    crate::text::join_strings(&blocks, "\n\n")
}

/// The prompt handed to the language model: it instructs the collaborator to
/// answer strictly from the supplied context and to say so when the answer is
/// not contained in it.
pub open spec fn rag_prompt(context: Seq<char>, question: Seq<char>) -> Seq<char> {
    "You are a helpful assistant. Use the following context to answer the question. \nIf the answer is not in the context, say so clearly.\n\nContext:\n"@
        + context + "\n\nQuestion: "@ + question + "\n\nAnswer:"@
}

/// Build the retrieval prompt around the context and the question.
pub fn build_rag_prompt(context: &str, question: &str) -> (r: String)
    ensures
        r@ == rag_prompt(context@, question@),
{
    let mut r = String::from_str(
        "You are a helpful assistant. Use the following context to answer the question. \nIf the answer is not in the context, say so clearly.\n\nContext:\n",
    );
    r.append(context);
    r.append("\n\nQuestion: ");
    r.append(question);
    r.append("\n\nAnswer:");
    r
}

/// The answer returned for a collection that holds no chunks.
pub fn empty_collection_response() -> (r: RagQueryResponse)
    ensures
        r.answer@ == "No documents found in this collection."@,
        r.sources@.len() == 0,
{
    RagQueryResponse {
        answer: String::from_str("No documents found in this collection."),
        sources: Vec::new(),
    }
}

/// The final response: the generated answer, with the ranked sources kept
/// only when the caller asked for them.
pub fn assemble_response(answer: String, sources: Vec<QueryResult>, return_sources: bool) -> (r:
    RagQueryResponse)
    ensures
        r.answer == answer,
        return_sources ==> r.sources == sources,
        !return_sources ==> r.sources@.len() == 0,
{
    if return_sources {
        RagQueryResponse { answer, sources }
    } else {
        RagQueryResponse { answer, sources: Vec::new() }
    }
}

} // verus!
