//! The chunker: split raw document text into bounded-size, paragraph-aware
//! segments.
//!
//! Paragraphs are delimited by blank lines.  Paragraphs are accumulated into
//! a buffer; when the next paragraph would push the buffer past the character
//! budget, the buffer is flushed as one chunk.  A single paragraph larger
//! than the budget is split further on whitespace, word by word.  Chunks are
//! never empty or whitespace-only, and together they carry every visible
//! character of the input, in order.

use vstd::prelude::*;
use crate::text::{
    all_ws, append_chars, chars_of, concat_all, is_ws_char, join_with, lemma_all_visible,
    lemma_join_push, lemma_str_views_push, lemma_trim_ws_is_spec, lemma_visible_all_push,
    lemma_visible_of_ws, lemma_ws_tokens_visible, lemma_ws_tokens_wf, split_sep, str_views,
    string_of, tokenize, trim_spec, trim_ws, vec_range, views_of, visible, visible_all, ws_free,
    ws_tokens,
};

verus! {

/// A well-formed chunk: non-empty, and neither its first nor its last
/// character is whitespace.
pub open spec fn chunk_wf(s: Seq<char>) -> bool {
    &&& s.len() > 0
    &&& !is_ws_char(s[0])
    &&& !is_ws_char(s[s.len() - 1])
}

/// A chunk within the size budget: at most `cap` characters plus the two
/// characters of one paragraph separator — or a single whitespace-free word,
/// the one thing the splitter never breaks up.
pub open spec fn chunk_sized(s: Seq<char>, cap: int) -> bool {
    s.len() <= cap + 2 || ws_free(s)
}

/// Trimming keeps the result within the original's size, and a trim of a
/// whitespace-free text is whitespace-free.
proof fn lemma_trim_keeps_bound(orig: Seq<char>, r: Seq<char>, cap: int)
    requires
        exists|a: int, b: int|
            {
                &&& 0 <= a <= b <= orig.len()
                &&& r == orig.subrange(a, b)
                &&& all_ws(orig.subrange(0, a))
                &&& all_ws(orig.subrange(b, orig.len() as int))
            },
        chunk_sized(orig, cap),
    ensures
        chunk_sized(r, cap),
{
    let (a, b) = choose|a: int, b: int|
        {
            &&& 0 <= a <= b <= orig.len()
            &&& r == orig.subrange(a, b)
            &&& all_ws(orig.subrange(0, a))
            &&& all_ws(orig.subrange(b, orig.len() as int))
        };
    assert(r.len() == b - a);
    if ws_free(orig) {
        assert forall|i: int| 0 <= i < r.len() implies !is_ws_char(#[trigger] r[i]) by {
            assert(r[i] == orig[a + i]);
        }
    }
}

/// The trimmed buffer as a flushed chunk list: one chunk, or none when the
/// buffer trims to nothing.
pub open spec fn flush_of(cur: Seq<char>) -> Seq<Seq<char>> {
    if trim_spec(cur).len() > 0 {
        seq![trim_spec(cur)]
    } else {
        Seq::empty()
    }
}

/// The word accumulator as a flushed chunk list: one chunk, or none when it
/// is empty (words are pushed untrimmed; they never carry edge whitespace).
pub open spec fn wflush_of(wc: Seq<char>) -> Seq<Seq<char>> {
    if wc.len() > 0 {
        seq![wc]
    } else {
        Seq::empty()
    }
}

/// Fold an over-long paragraph's words into chunks: the accumulated words
/// are flushed whenever the next word (plus a joining space) would exceed
/// the budget; the final accumulator is returned as the carry for the next
/// paragraph.
pub open spec fn word_fold(words: Seq<Seq<char>>, wc: Seq<char>, cap: int) -> (
    Seq<Seq<char>>,
    Seq<char>,
)
    decreases words.len(),
{
    if words.len() == 0 {
        (Seq::empty(), wc)
    } else {
        let w = words[0];
        if wc.len() + w.len() + 1 > cap {
            let rest = word_fold(words.drop_first(), w, cap);
            (wflush_of(wc) + rest.0, rest.1)
        } else {
            word_fold(
                words.drop_first(),
                if wc.len() == 0 {
                    w
                } else {
                    wc + seq![' '] + w
                },
                cap,
            )
        }
    }
}

/// Fold the paragraphs into chunks: a paragraph that fits joins the buffer
/// with a blank line; one that does not flushes the buffer first, and an
/// over-long paragraph is split word by word, its remainder becoming the new
/// buffer; the final buffer is flushed at the end.
pub open spec fn chunk_fold(paras: Seq<Seq<char>>, current: Seq<char>, cap: int) -> Seq<Seq<char>>
    decreases paras.len(),
{
    if paras.len() == 0 {
        flush_of(current)
    } else {
        let p = paras[0];
        if current.len() + p.len() > cap {
            if p.len() > cap {
                let wr = word_fold(ws_tokens(p), Seq::empty(), cap);
                flush_of(current) + wr.0 + chunk_fold(paras.drop_first(), wr.1, cap)
            } else {
                flush_of(current) + chunk_fold(paras.drop_first(), p, cap)
            }
        } else {
            chunk_fold(
                paras.drop_first(),
                if current.len() == 0 {
                    p
                } else {
                    current + seq!['\n', '\n'] + p
                },
                cap,
            )
        }
    }
}

/// The exact chunk list for a text under a character budget: the text split
/// on blank lines, folded paragraph by paragraph.
pub open spec fn chunks_of_text(text: Seq<char>, cap: int) -> Seq<Seq<char>> {
    chunk_fold(split_sep(text, seq!['\n', '\n']), Seq::empty(), cap)
}

/// Adding one paragraph to the joined prefix adds exactly its visible
/// characters, the separator being whitespace.
pub proof fn lemma_vis_join_step(prefix: Seq<Seq<char>>, sep: Seq<char>, p: Seq<char>)
    requires
        crate::text::all_ws(sep),
    ensures
        visible(join_with(prefix.push(p), sep)) == visible(join_with(prefix, sep)) + visible(p),
{
    lemma_join_push(prefix, sep, p);
    lemma_visible_of_ws(sep);
    if prefix.len() == 0 {
        assert(join_with(prefix, sep) =~= Seq::<char>::empty());
        crate::text::lemma_visible_of_ws(Seq::<char>::empty());
        assert(visible(join_with(prefix.push(p), sep)) =~= visible(join_with(prefix, sep))
            + visible(p));
    } else {
        Seq::filter_distributes_over_add(
            join_with(prefix, sep) + sep,
            p,
            |c: char| !is_ws_char(c),
        );
        Seq::filter_distributes_over_add(join_with(prefix, sep), sep, |c: char| !is_ws_char(c));
        assert(visible(join_with(prefix.push(p), sep)) =~= visible(join_with(prefix, sep))
            + visible(p));
    }
}

/// Split `text` into chunks of roughly `chunk_size` characters.
///
/// Every chunk is non-empty and starts and ends with a visible character, and
/// the chunks together carry exactly the visible characters of `text`, in
/// order.
#[verifier::rlimit(100)]
pub fn chunk_text(text: &str, chunk_size: usize) -> (r: Vec<String>)
    ensures
        str_views(r@) == chunks_of_text(text@, chunk_size as int),
        forall|i: int| 0 <= i < r@.len() ==> chunk_wf((#[trigger] r@[i])@),
        forall|i: int| 0 <= i < r@.len() ==> chunk_sized((#[trigger] r@[i])@, chunk_size as int),
        visible_all(str_views(r@)) == visible(text@),
{
    let t = chars_of(text);
    let mut sep: Vec<char> = Vec::new();
    sep.push('\n');
    sep.push('\n');
    proof {
        assert(sep@ =~= seq!['\n', '\n']);
        assert(crate::text::all_ws(sep@));
    }
    let paras = crate::text::split_on_sep(&t, &sep);
    let ghost vws = views_of(paras@);
    let ghost cap = chunk_size as int;
    let np = paras.len();
    let mut chunks: Vec<String> = Vec::new();
    let mut current: Vec<char> = Vec::new();
    let mut i: usize = 0;
    proof {
        assert(vws.subrange(0, 0) =~= Seq::<Seq<char>>::empty());
        assert(join_with(vws.subrange(0, 0), sep@) =~= Seq::<char>::empty());
        lemma_visible_of_ws(Seq::<char>::empty());
        assert(str_views(chunks@) =~= Seq::<Seq<char>>::empty());
        assert(concat_all(str_views(chunks@)) =~= Seq::<char>::empty());
        assert(visible_all(str_views(chunks@)) + visible(current@) =~= visible(
            join_with(vws.subrange(0, 0), sep@),
        ));
        assert(vws.subrange(0, np as int) =~= vws);
        assert(chunk_fold(vws, Seq::empty(), cap) =~= str_views(chunks@) + chunk_fold(
            vws.subrange(0, np as int),
            current@,
            cap,
        ));
    }
    while i < np
        invariant
            np == paras@.len(),
            vws == views_of(paras@),
            i <= np,
            crate::text::all_ws(sep@),
            forall|k: int| 0 <= k < chunks@.len() ==> chunk_wf((#[trigger] chunks@[k])@),
            forall|k: int|
                0 <= k < chunks@.len() ==> chunk_sized((#[trigger] chunks@[k])@, chunk_size as int),
            chunk_sized(current@, chunk_size as int),
            visible_all(str_views(chunks@)) + visible(current@) == visible(
                join_with(vws.subrange(0, i as int), sep@),
            ),
            cap == chunk_size as int,
            chunk_fold(vws, Seq::empty(), cap) == str_views(chunks@) + chunk_fold(
                vws.subrange(i as int, np as int),
                current@,
                cap,
            ),
        decreases np - i,
    {
        let ghost prefix = vws.subrange(0, i as int);
        let ghost entry_chunks = chunks@;
        let ghost entry_current = current@;
        let ghost tail = vws.subrange(i as int, np as int);
        proof {
            assert(vws.subrange(0, i as int + 1) =~= prefix.push(vws[i as int]));
            lemma_vis_join_step(prefix, sep@, vws[i as int]);
            assert(paras@[i as int]@ == vws[i as int]);
            assert(tail.len() > 0);
            assert(tail[0] == vws[i as int]);
            assert(tail.drop_first() =~= vws.subrange(i as int + 1, np as int));
        }
        let plen = paras[i].len();
        if (current.len() as u128) + (plen as u128) > (chunk_size as u128) {
            // flush the buffer
            let tr = trim_ws(&current);
            proof {
                lemma_trim_keeps_bound(current@, tr@, chunk_size as int);
                lemma_trim_ws_is_spec(entry_current, tr@);
            }
            if tr.len() > 0 {
                let ghost pre_chunks = chunks@;
                let flushed = string_of(&tr);
                let ghost fv = flushed@;
                chunks.push(flushed);
                proof {
                    lemma_str_views_push(pre_chunks, chunks@.last());
                    lemma_visible_all_push(str_views(pre_chunks), fv);
                }
            } else {
                proof {
                    assert(visible(tr@).len() == 0);
                    assert(visible(current@).len() == 0);
                    assert(visible(current@) =~= Seq::<char>::empty());
                }
            }
            current = Vec::new();
            proof {
                assert(visible(current@) =~= Seq::<char>::empty());
                assert(visible_all(str_views(chunks@)) =~= visible(
                    join_with(vws.subrange(0, i as int), sep@),
                ));
                assert(str_views(chunks@) =~= str_views(entry_chunks) + flush_of(entry_current));
            }
            if (plen as u128) > (chunk_size as u128) {
                // the paragraph alone is too large: split it on words
                let words = tokenize(&paras[i]);
                let ghost wvs = views_of(words@);
                proof {
                    assert(wvs == ws_tokens(paras@[i as int]@));
                    lemma_ws_tokens_wf(paras@[i as int]@);
                    lemma_ws_tokens_visible(paras@[i as int]@);
                }
                let nw = words.len();
                let ghost base = visible_all(str_views(chunks@));
                let ghost wentry = chunks@;
                let ghost wr = word_fold(wvs, Seq::<char>::empty(), cap);
                let mut word_chunk: Vec<char> = Vec::new();
                let mut j: usize = 0;
                proof {
                    assert(wvs.subrange(0, 0) =~= Seq::<Seq<char>>::empty());
                    assert(concat_all(wvs.subrange(0, 0)) =~= Seq::<char>::empty());
                    lemma_visible_of_ws(Seq::<char>::empty());
                    assert(visible(word_chunk@) =~= Seq::<char>::empty());
                    assert(base + visible_all(wvs.subrange(0, 0)) =~= base);
                    assert(visible_all(str_views(chunks@)) + visible(word_chunk@) =~= base
                        + visible_all(wvs.subrange(0, 0)));
                    assert(wvs.subrange(0, nw as int) =~= wvs);
                    assert(str_views(chunks@) + word_fold(
                        wvs.subrange(0, nw as int),
                        word_chunk@,
                        cap,
                    ).0 =~= str_views(wentry) + wr.0);
                }
                while j < nw
                    invariant
                        nw == words@.len(),
                        wvs == views_of(words@),
                        j <= nw,
                        cap == chunk_size as int,
                        wr == word_fold(wvs, Seq::<char>::empty(), cap),
                        str_views(chunks@) + word_fold(
                            wvs.subrange(j as int, nw as int),
                            word_chunk@,
                            cap,
                        ).0 == str_views(wentry) + wr.0,
                        word_fold(wvs.subrange(j as int, nw as int), word_chunk@, cap).1 == wr.1,
                        forall|k: int|
                            0 <= k < wvs.len() ==> (#[trigger] wvs[k]).len() > 0 && forall|q: int|
                                0 <= q < wvs[k].len() ==> !is_ws_char(#[trigger] wvs[k][q]),
                        forall|k: int| 0 <= k < chunks@.len() ==> chunk_wf((#[trigger] chunks@[k])@),
                        forall|k: int|
                            0 <= k < chunks@.len() ==> chunk_sized(
                                (#[trigger] chunks@[k])@,
                                chunk_size as int,
                            ),
                        word_chunk@.len() <= chunk_size || ws_free(word_chunk@),
                        word_chunk@.len() > 0 ==> !is_ws_char(word_chunk@[0]) && !is_ws_char(
                            word_chunk@[word_chunk@.len() - 1],
                        ),
                        visible_all(str_views(chunks@)) + visible(word_chunk@) == base
                            + visible_all(wvs.subrange(0, j as int)),
                    decreases nw - j,
                {
                    let ghost wprefix = wvs.subrange(0, j as int);
                    let ghost wtail = wvs.subrange(j as int, nw as int);
                    let ghost wc_entry = word_chunk@;
                    let ghost wchunks_entry = chunks@;
                    proof {
                        assert(wvs.subrange(0, j as int + 1) =~= wprefix.push(wvs[j as int]));
                        lemma_visible_all_push(wprefix, wvs[j as int]);
                        assert(words@[j as int]@ == wvs[j as int]);
                        lemma_all_visible(wvs[j as int]);
                        assert(wtail.len() > 0);
                        assert(wtail[0] == wvs[j as int]);
                        assert(wtail.drop_first() =~= wvs.subrange(j as int + 1, nw as int));
                    }
                    let wlen = words[j].len();
                    if (word_chunk.len() as u128) + (wlen as u128) + 1 > (chunk_size as u128) {
                        if word_chunk.len() > 0 {
                            let ghost pre_chunks = chunks@;
                            let ghost wcv = word_chunk@;
                            let flushed = string_of(&word_chunk);
                            chunks.push(flushed);
                            proof {
                                lemma_str_views_push(pre_chunks, chunks@.last());
                                lemma_visible_all_push(str_views(pre_chunks), wcv);
                            }
                            word_chunk = Vec::new();
                        } else {
                            proof {
                                assert(visible(word_chunk@) =~= Seq::<char>::empty());
                            }
                        }
                        let fresh = vec_range(&words[j], 0, wlen);
                        proof {
                            assert(fresh@ =~= wvs[j as int]);
                        }
                        word_chunk = fresh;
                        proof {
                            lemma_all_visible(word_chunk@);
                            assert(ws_free(word_chunk@));
                            assert(visible_all(str_views(chunks@)) + visible(word_chunk@) =~= base
                                + visible_all(wvs.subrange(0, j as int + 1)));
                            // one fold step: flush the accumulator, carry this word
                            assert(wc_entry.len() + wvs[j as int].len() + 1 > cap);
                            assert(wtail[0] == wvs[j as int]);
                            assert(word_fold(wtail, wc_entry, cap) == (wflush_of(wc_entry)
                                + word_fold(wtail.drop_first(), wtail[0], cap).0, word_fold(
                                wtail.drop_first(),
                                wtail[0],
                                cap,
                            ).1));
                            assert(word_fold(wtail, wc_entry, cap).0 =~= wflush_of(wc_entry)
                                + word_fold(wtail.drop_first(), wvs[j as int], cap).0);
                            assert(word_fold(wtail, wc_entry, cap).1 == word_fold(
                                wtail.drop_first(),
                                wvs[j as int],
                                cap,
                            ).1);
                            assert(str_views(chunks@) =~= str_views(wchunks_entry) + wflush_of(
                                wc_entry,
                            ));
                            assert(str_views(chunks@) + word_fold(
                                wvs.subrange(j as int + 1, nw as int),
                                word_chunk@,
                                cap,
                            ).0 =~= str_views(wentry) + wr.0);
                        }
                    } else {
                        let ghost wc_old = word_chunk@;
                        if word_chunk.len() > 0 {
                            word_chunk.push(' ');
                        }
                        append_chars(&mut word_chunk, &words[j]);
                        proof {
                            if wc_old.len() > 0 {
                                assert(word_chunk@ =~= wc_old + seq![' '] + wvs[j as int]);
                                Seq::filter_distributes_over_add(
                                    wc_old + seq![' '],
                                    wvs[j as int],
                                    |c: char| !is_ws_char(c),
                                );
                                Seq::filter_distributes_over_add(
                                    wc_old,
                                    seq![' '],
                                    |c: char| !is_ws_char(c),
                                );
                                lemma_visible_of_ws(seq![' ']);
                                lemma_all_visible(wvs[j as int]);
                                assert(visible(word_chunk@) =~= visible(wc_old) + wvs[j as int]);
                                assert(word_chunk@[0] == wc_old[0]);
                            } else {
                                assert(word_chunk@ =~= wvs[j as int]);
                                lemma_all_visible(word_chunk@);
                            }
                            assert(word_chunk@[word_chunk@.len() - 1] == wvs[j as int][wvs[j
                                as int].len() - 1]);
                            let va = visible_all(str_views(chunks@));
                            assert(visible(word_chunk@) =~= visible(wc_old) + visible(
                                wvs[j as int],
                            ));
                            assert(va + visible(word_chunk@) =~= (va + visible(wc_old)) + visible(
                                wvs[j as int],
                            ));
                            assert(base + visible_all(wvs.subrange(0, j as int + 1)) =~= (base
                                + visible_all(wprefix)) + visible(wvs[j as int]));
                            assert(visible_all(str_views(chunks@)) + visible(word_chunk@) =~= base
                                + visible_all(wvs.subrange(0, j as int + 1)));
                            // one fold step: the word joins the accumulator
                            assert(word_chunk@ == if wc_entry.len() == 0 {
                                wvs[j as int]
                            } else {
                                wc_entry + seq![' '] + wvs[j as int]
                            });
                            assert(word_fold(wtail, wc_entry, cap) == word_fold(
                                wtail.drop_first(),
                                word_chunk@,
                                cap,
                            ));
                            assert(str_views(chunks@) + word_fold(
                                wvs.subrange(j as int + 1, nw as int),
                                word_chunk@,
                                cap,
                            ).0 =~= str_views(wentry) + wr.0);
                        }
                    }
                    j = j + 1;
                }
                proof {
                    assert(wvs.subrange(0, nw as int) =~= wvs);
                    assert(visible_all(wvs) == visible(vws[i as int]));
                    assert(wvs.subrange(nw as int, nw as int) =~= Seq::<Seq<char>>::empty());
                    assert(word_fold(Seq::<Seq<char>>::empty(), word_chunk@, cap) == (
                        Seq::<Seq<char>>::empty(),
                        word_chunk@,
                    ));
                    assert(str_views(chunks@) =~= str_views(wentry) + wr.0);
                    assert(word_chunk@ == wr.1);
                }
                if word_chunk.len() > 0 {
                    current = word_chunk;
                    proof {
                        assert(chunk_sized(current@, chunk_size as int));
                    }
                } else {
                    proof {
                        assert(visible(word_chunk@) =~= Seq::<char>::empty());
                        assert(visible(current@) =~= Seq::<char>::empty());
                    }
                }
                proof {
                    assert(visible_all(str_views(chunks@)) + visible(current@) =~= visible(
                        join_with(vws.subrange(0, i as int + 1), sep@),
                    ));
                    // one fold step over the over-long paragraph
                    assert(current@ == wr.1);
                    assert(chunk_fold(tail, entry_current, cap) =~= flush_of(entry_current) + wr.0
                        + chunk_fold(tail.drop_first(), wr.1, cap));
                    assert(str_views(entry_chunks) + chunk_fold(tail, entry_current, cap)
                        =~= str_views(chunks@) + chunk_fold(
                        vws.subrange(i as int + 1, np as int),
                        current@,
                        cap,
                    ));
                }
            } else {
                let fresh = vec_range(&paras[i], 0, plen);
                proof {
                    assert(fresh@ =~= vws[i as int]);
                }
                current = fresh;
                proof {
                    assert(visible_all(str_views(chunks@)) + visible(current@) =~= visible(
                        join_with(vws.subrange(0, i as int + 1), sep@),
                    ));
                    // one fold step: flush, then carry the paragraph
                    assert(chunk_fold(tail, entry_current, cap) =~= flush_of(entry_current)
                        + chunk_fold(tail.drop_first(), vws[i as int], cap));
                    assert(str_views(entry_chunks) + chunk_fold(tail, entry_current, cap)
                        =~= str_views(chunks@) + chunk_fold(
                        vws.subrange(i as int + 1, np as int),
                        current@,
                        cap,
                    ));
                }
            }
        } else {
            let ghost cur_old = current@;
            if current.len() > 0 {
                current.push('\n');
                current.push('\n');
            }
            append_chars(&mut current, &paras[i]);
            proof {
                if cur_old.len() > 0 {
                    assert(current@ =~= cur_old + seq!['\n', '\n'] + vws[i as int]);
                    Seq::filter_distributes_over_add(
                        cur_old + seq!['\n', '\n'],
                        vws[i as int],
                        |c: char| !is_ws_char(c),
                    );
                    Seq::filter_distributes_over_add(
                        cur_old,
                        seq!['\n', '\n'],
                        |c: char| !is_ws_char(c),
                    );
                    lemma_visible_of_ws(seq!['\n', '\n']);
                    assert(visible(current@) =~= visible(cur_old) + visible(vws[i as int]));
                } else {
                    assert(current@ =~= vws[i as int]);
                }
                assert(visible_all(str_views(chunks@)) + visible(current@) =~= visible(
                    join_with(vws.subrange(0, i as int + 1), sep@),
                ));
                // one fold step: the paragraph joins the buffer
                assert(current@ == if entry_current.len() == 0 {
                    vws[i as int]
                } else {
                    entry_current + seq!['\n', '\n'] + vws[i as int]
                });
                assert(chunk_fold(tail, entry_current, cap) == chunk_fold(
                    tail.drop_first(),
                    current@,
                    cap,
                ));
                assert(str_views(entry_chunks) + chunk_fold(tail, entry_current, cap)
                    =~= str_views(chunks@) + chunk_fold(
                    vws.subrange(i as int + 1, np as int),
                    current@,
                    cap,
                ));
            }
        }
        i = i + 1;
    }
    // final flush
    let ghost end_chunks = chunks@;
    let ghost end_current = current@;
    let tr = trim_ws(&current);
    proof {
        lemma_trim_keeps_bound(current@, tr@, chunk_size as int);
        lemma_trim_ws_is_spec(end_current, tr@);
    }
    if tr.len() > 0 {
        let ghost pre_chunks = chunks@;
        let ghost trv = tr@;
        let flushed = string_of(&tr);
        chunks.push(flushed);
        proof {
            lemma_str_views_push(pre_chunks, chunks@.last());
            lemma_visible_all_push(str_views(pre_chunks), trv);
        }
    } else {
        proof {
            assert(visible(tr@).len() == 0);
            assert(visible(current@) =~= Seq::<char>::empty());
        }
    }
    proof {
        assert(vws.subrange(0, np as int) =~= vws);
        assert(join_with(vws, sep@) == t@);
        assert(visible_all(str_views(chunks@)) =~= visible(text@));
        assert(vws.subrange(np as int, np as int) =~= Seq::<Seq<char>>::empty());
        assert(chunk_fold(Seq::<Seq<char>>::empty(), end_current, cap) == flush_of(end_current));
        assert(str_views(chunks@) =~= str_views(end_chunks) + flush_of(end_current));
        assert(str_views(chunks@) =~= chunk_fold(vws, Seq::<char>::empty(), cap));
        assert(vws == split_sep(t@, sep@));
        assert(sep@ == seq!['\n', '\n']);
        assert(str_views(chunks@) =~= chunks_of_text(text@, cap));
    }
    chunks
}

} // verus!
