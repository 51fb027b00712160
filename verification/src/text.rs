//! Character-level text utilities shared by the chunker, the searcher and the
//! markdown builders.
//!
//! Executable code works on `Vec<char>` so that every step is visible to the
//! verifier; `chars_of` and `string_of` bridge to `String` at the edges.

use vstd::prelude::*;
use vstd::string::StrSliceExecFns;

verus! {

/// Whitespace as this library understands it: the ASCII blanks.
pub open spec fn is_ws_char(c: char) -> bool {
    c == ' ' || c == '\t' || c == '\n' || c == '\r' || c == '\u{000B}' || c == '\u{000C}'
}

/// The non-whitespace characters of `s`, in order.
pub open spec fn visible(s: Seq<char>) -> Seq<char> {
    s.filter(|c: char| !is_ws_char(c))
}

/// Executable test matching `is_ws_char`.
pub fn is_ws(c: char) -> (r: bool)
    ensures
        r == is_ws_char(c),
{
    c == ' ' || c == '\t' || c == '\n' || c == '\r' || c == '\u{000B}' || c == '\u{000C}'
}

/// The characters of `s` as a vector.
pub fn chars_of(s: &str) -> (r: Vec<char>)
    ensures
        r@ == s@,
{
    let n = s.unicode_len();
    let mut v: Vec<char> = Vec::new();
    let mut i: usize = 0;
    while i < n
        invariant
            n == s@.len(),
            i <= n,
            v@ == s@.subrange(0, i as int),
        decreases n - i,
    {
        v.push(s.get_char(i));
        i = i + 1;
        proof {
            assert(v@ =~= s@.subrange(0, i as int));
        }
    }
    proof {
        assert(v@ =~= s@);
    }
    v
}

/// Relies on `core::iter::Iterator::collect` for `String`: collecting
/// characters yields the string made of exactly those characters in order.
#[verifier::external_body]
pub(crate) fn string_of(cs: &Vec<char>) -> (r: String)
    ensures
        r@ == cs@,
{
    cs.iter().collect()
}

/// ASCII lower-casing of one character; everything outside `A`..`Z` is kept.
pub open spec fn lower_char(c: char) -> char {
    if 'A' <= c && c <= 'Z' {
        ((c as u32) + 32) as char
    } else {
        c
    }
}

/// ASCII lower-casing of a character sequence.
pub open spec fn lower_seq(s: Seq<char>) -> Seq<char> {
    s.map_values(|c: char| lower_char(c))
}

/// Executable ASCII lower-casing.
pub fn to_lower(v: &Vec<char>) -> (r: Vec<char>)
    ensures
        r@ == lower_seq(v@),
{
    let mut out: Vec<char> = Vec::new();
    let mut i: usize = 0;
    while i < v.len()
        invariant
            i <= v@.len(),
            out@ == lower_seq(v@.subrange(0, i as int)),
        decreases v@.len() - i,
    {
        let c = v[i];
        if 'A' <= c && c <= 'Z' {
            let code: u32 = c as u32;
            assert(code + 32 <= 122) by {
                assert('A' <= c && c <= 'Z');
            };
            let low: u8 = (code + 32) as u8;
            out.push(low as char);
            proof {
                assert(low as char == lower_char(c));
            }
        } else {
            out.push(c);
        }
        i = i + 1;
        proof {
            assert(out@ =~= lower_seq(v@.subrange(0, i as int)));
        }
    }
    proof {
        assert(out@ =~= lower_seq(v@));
    }
    out
}

/// True when no character of `s` is whitespace.
pub open spec fn ws_free(s: Seq<char>) -> bool {
    forall|i: int| 0 <= i < s.len() ==> !is_ws_char(#[trigger] s[i])
}

/// True when every character of `s` is whitespace.
pub open spec fn all_ws(s: Seq<char>) -> bool {
    forall|i: int| 0 <= i < s.len() ==> is_ws_char(#[trigger] s[i])
}

/// A sequence of whitespace alone has no visible characters.
pub proof fn lemma_visible_of_ws(s: Seq<char>)
    requires
        all_ws(s),
    ensures
        visible(s) == Seq::<char>::empty(),
    decreases s.len(),
{
    reveal(Seq::filter);
    if s.len() > 0 {
        lemma_visible_of_ws(s.drop_last());
    }
    assert(visible(s) =~= Seq::<char>::empty());
}

/// `trim_ws` keeps exactly the span from the first to the last visible
/// character: the result is a contiguous slice of the input, what was cut on
/// either side is whitespace, and the result never starts or ends with
/// whitespace.
pub fn trim_ws(v: &Vec<char>) -> (r: Vec<char>)
    ensures
        exists|a: int, b: int|
            {
                &&& 0 <= a <= b <= v@.len()
                &&& r@ == v@.subrange(a, b)
                &&& all_ws(v@.subrange(0, a))
                &&& all_ws(v@.subrange(b, v@.len() as int))
            },
        r@.len() > 0 ==> !is_ws_char(r@[0]) && !is_ws_char(r@[r@.len() - 1]),
        visible(r@) == visible(v@),
{
    let n = v.len();
    let mut a: usize = 0;
    while a < n && is_ws(v[a])
        invariant
            n == v@.len(),
            a <= n,
            all_ws(v@.subrange(0, a as int)),
        decreases n - a,
    {
        a = a + 1;
        proof {
            assert forall|i: int| 0 <= i < a implies is_ws_char(v@.subrange(0, a as int)[i]) by {
                if i < a - 1 {
                    assert(is_ws_char(v@.subrange(0, a as int - 1)[i]));
                }
            }
        }
    }
    let mut b: usize = n;
    while b > a && is_ws(v[b - 1])
        invariant
            n == v@.len(),
            a <= b <= n,
            all_ws(v@.subrange(b as int, n as int)),
        decreases b,
    {
        b = b - 1;
        proof {
            assert forall|i: int| 0 <= i < n - b implies is_ws_char(
                v@.subrange(b as int, n as int)[i],
            ) by {
                if i > 0 {
                    assert(is_ws_char(v@.subrange(b as int + 1, n as int)[i - 1]));
                }
            }
        }
    }
    let mut r: Vec<char> = Vec::new();
    let mut i: usize = a;
    while i < b
        invariant
            a <= i <= b <= n,
            n == v@.len(),
            r@ == v@.subrange(a as int, i as int),
        decreases b - i,
    {
        r.push(v[i]);
        i = i + 1;
        proof {
            assert(r@ =~= v@.subrange(a as int, i as int));
        }
    }
    proof {
        let ghost ga = a as int;
        let ghost gb = b as int;
        assert(r@ == v@.subrange(ga, gb));
        if r@.len() > 0 {
            assert(!is_ws_char(v@[ga]));
            assert(!is_ws_char(v@[gb - 1]));
            assert(r@[0] == v@[ga]);
            assert(r@[r@.len() - 1] == v@[gb - 1]);
        }
        broadcast use vstd::seq_lib::group_filter_ensures;

        assert(v@ =~= v@.subrange(0, ga) + v@.subrange(ga, gb) + v@.subrange(gb, n as int));
        Seq::filter_distributes_over_add(
            v@.subrange(0, ga) + v@.subrange(ga, gb),
            v@.subrange(gb, n as int),
            |c: char| !is_ws_char(c),
        );
        Seq::filter_distributes_over_add(
            v@.subrange(0, ga),
            v@.subrange(ga, gb),
            |c: char| !is_ws_char(c),
        );
        lemma_visible_of_ws(v@.subrange(0, ga));
        lemma_visible_of_ws(v@.subrange(gb, n as int));
        assert(visible(r@) =~= visible(v@));
    }
    r
}

/// `needle` occurs in `hay` starting at position `i`.
pub open spec fn match_at(hay: Seq<char>, needle: Seq<char>, i: int) -> bool {
    &&& 0 <= i
    &&& i + needle.len() <= hay.len()
    &&& hay.subrange(i, i + needle.len()) == needle
}

/// `needle` occurs somewhere in `hay`.
pub open spec fn contains_seq(hay: Seq<char>, needle: Seq<char>) -> bool {
    exists|i: int| match_at(hay, needle, i)
}

/// Whether `needle` occurs in `hay` starting exactly at `i`.
fn matches_here(hay: &Vec<char>, needle: &Vec<char>, i: usize) -> (r: bool)
    requires
        i + needle@.len() <= hay@.len(),
    ensures
        r == match_at(hay@, needle@, i as int),
{
    let n = hay.len();
    let m = needle.len();
    let mut j: usize = 0;
    while j < m
        invariant
            n == hay@.len(),
            m == needle@.len(),
            i + m <= n,
            j <= m,
            hay@.subrange(i as int, i + j) == needle@.subrange(0, j as int),
        decreases m - j,
    {
        if hay[i + j] != needle[j] {
            proof {
                assert(!match_at(hay@, needle@, i as int)) by {
                    if hay@.subrange(i as int, i + m) == needle@ {
                        assert(hay@.subrange(i as int, i + m)[j as int] == needle@[j as int]);
                    }
                }
            }
            return false;
        }
        j = j + 1;
        proof {
            assert(hay@.subrange(i as int, i + j) =~= needle@.subrange(0, j as int));
        }
    }
    proof {
        assert(hay@.subrange(i as int, i + m) =~= needle@);
    }
    true
}

/// First index at which `needle` occurs in `hay`, if any.
pub fn find_sub(hay: &Vec<char>, needle: &Vec<char>) -> (r: Option<usize>)
    ensures
        match r {
            Some(i) => match_at(hay@, needle@, i as int) && forall|j: int|
                0 <= j < i ==> !match_at(hay@, needle@, j),
            None => !contains_seq(hay@, needle@),
        },
{
    let n = hay.len();
    let m = needle.len();
    if m > n {
        return None;
    }
    if m == 0 {
        proof {
            assert(match_at(hay@, needle@, 0)) by {
                assert(hay@.subrange(0, 0) =~= needle@);
            }
        }
        return Some(0);
    }
    let mut i: usize = 0;
    while i <= n - m
        invariant
            n == hay@.len(),
            m == needle@.len(),
            1 <= m <= n,
            i <= n - m + 1,
            forall|j: int| 0 <= j < i ==> !match_at(hay@, needle@, j),
        decreases n - i,
    {
        if matches_here(hay, needle, i) {
            return Some(i);
        }
        i = i + 1;
    }
    proof {
        assert forall|j: int| !match_at(hay@, needle@, j) by {
            if 0 <= j && j + m <= n {
                assert(j < i);
            }
        }
    }
    None
}

/// Whether `needle` occurs anywhere in `hay`.
pub fn contains_sub(hay: &Vec<char>, needle: &Vec<char>) -> (r: bool)
    ensures
        r == contains_seq(hay@, needle@),
{
    match find_sub(hay, needle) {
        Some(_) => true,
        None => false,
    }
}

/// The views of a sequence of character vectors.
pub open spec fn views_of(s: Seq<Vec<char>>) -> Seq<Seq<char>> {
    s.map_values(|p: Vec<char>| p@)
}

/// `views_of` commutes with `push`.
pub proof fn lemma_views_of_push(s: Seq<Vec<char>>, p: Vec<char>)
    ensures
        views_of(s.push(p)) == views_of(s).push(p@),
{
    assert(views_of(s.push(p)) =~= views_of(s).push(p@));
}

/// Copy of `v[a..b]`.
pub fn vec_range(v: &Vec<char>, a: usize, b: usize) -> (r: Vec<char>)
    requires
        a <= b <= v@.len(),
    ensures
        r@ == v@.subrange(a as int, b as int),
{
    let mut r: Vec<char> = Vec::new();
    let mut i: usize = a;
    while i < b
        invariant
            a <= i <= b <= v@.len(),
            r@ == v@.subrange(a as int, i as int),
        decreases b - i,
    {
        r.push(v[i]);
        i = i + 1;
        proof {
            assert(r@ =~= v@.subrange(a as int, i as int));
        }
    }
    r
}

/// The concatenation of `parts` with `sep` between consecutive parts.
pub open spec fn join_with(parts: Seq<Seq<char>>, sep: Seq<char>) -> Seq<char>
    decreases parts.len(),
{
    if parts.len() == 0 {
        Seq::empty()
    } else if parts.len() == 1 {
        parts[0]
    } else {
        parts[0] + sep + join_with(parts.drop_first(), sep)
    }
}

/// Appending one more part extends the joined text by one separator and the
/// part.
pub proof fn lemma_join_push(parts: Seq<Seq<char>>, sep: Seq<char>, p: Seq<char>)
    ensures
        parts.len() == 0 ==> join_with(parts.push(p), sep) == p,
        parts.len() > 0 ==> join_with(parts.push(p), sep) == join_with(parts, sep) + sep + p,
    decreases parts.len(),
{
    if parts.len() == 0 {
        assert(join_with(parts.push(p), sep) == parts.push(p)[0]);
        assert(parts.push(p)[0] == p);
    } else if parts.len() == 1 {
        assert(parts.push(p).drop_first() =~= seq![p]);
        assert(join_with(seq![p], sep) == seq![p][0]);
        assert(seq![p][0] == p);
        assert(parts.push(p).len() == 2);
        assert(join_with(parts.push(p), sep) == parts.push(p)[0] + sep + join_with(
            parts.push(p).drop_first(),
            sep,
        ));
        assert(parts.push(p)[0] == parts[0]);
        assert(join_with(parts, sep) == parts[0]);
    } else {
        lemma_join_push(parts.drop_first(), sep, p);
        assert(parts.push(p).drop_first() =~= parts.drop_first().push(p));
        assert(join_with(parts.push(p), sep) == parts[0] + sep + join_with(
            parts.drop_first().push(p),
            sep,
        ));
        assert(parts[0] + sep + (join_with(parts.drop_first(), sep) + sep + p) =~= (parts[0] + sep
            + join_with(parts.drop_first(), sep)) + sep + p);
    }
}

/// Split `v` on occurrences of `sep`, leftmost first.  Joining the parts back
/// with `sep` reproduces the input exactly.
pub fn split_on_sep(v: &Vec<char>, sep: &Vec<char>) -> (r: Vec<Vec<char>>)
    requires
        sep@.len() >= 1,
    ensures
        r@.len() >= 1,
        join_with(views_of(r@), sep@) == v@,
        views_of(r@) == split_sep(v@, sep@),
{
    let m = sep.len();
    let mut parts: Vec<Vec<char>> = Vec::new();
    let mut rest: Vec<char> = vec_range(v, 0, v.len());
    proof {
        assert(rest@ =~= v@);
        assert(views_of(parts@) =~= Seq::<Seq<char>>::empty());
        assert(split_sep(v@, sep@) =~= views_of(parts@) + split_sep(rest@, sep@));
    }
    loop
        invariant
            m == sep@.len(),
            m >= 1,
            parts@.len() == 0 ==> rest@ == v@,
            parts@.len() > 0 ==> join_with(views_of(parts@), sep@) + sep@ + rest@ == v@,
            split_sep(v@, sep@) == views_of(parts@) + split_sep(rest@, sep@),
        decreases rest@.len(),
    {
        let rn = rest.len();
        let found = find_sub(&rest, sep);
        match found {
            Some(i) => {
                let ghost old_parts = views_of(parts@);
                let piece = vec_range(&rest, 0, i);
                let new_rest = vec_range(&rest, i + m, rn);
                proof {
                    lemma_join_push(old_parts, sep@, piece@);
                    assert(rest@ =~= piece@ + sep@ + new_rest@) by {
                        assert(rest@.subrange(i as int, i + m) == sep@);
                        assert(rest@ =~= rest@.subrange(0, i as int) + rest@.subrange(
                            i as int,
                            i + m,
                        ) + rest@.subrange(i + m, rest@.len() as int));
                    }
                }
                let ghost piece_view = piece@;
                let ghost pre = parts@;
                let ghost old_rest_view = rest@;
                proof {
                    lemma_find_first_determined(old_rest_view, sep@, i as int);
                    assert(split_sep(old_rest_view, sep@) == seq![old_rest_view.subrange(0, i as int)]
                        + split_sep(
                        old_rest_view.subrange(i + m, old_rest_view.len() as int),
                        sep@,
                    ));
                }
                parts.push(piece);
                proof {
                    lemma_views_of_push(pre, piece);
                    assert(views_of(parts@) == old_parts.push(piece_view));
                    if old_parts.len() == 0 {
                        assert(join_with(views_of(parts@), sep@) + sep@ + new_rest@ =~= v@);
                    } else {
                        assert((join_with(old_parts, sep@) + sep@ + piece_view) + sep@ + new_rest@
                            =~= v@);
                    }
                    assert(split_sep(v@, sep@) =~= views_of(parts@) + split_sep(new_rest@, sep@));
                }
                rest = new_rest;
            },
            None => {
                let ghost old_parts = views_of(parts@);
                let ghost old_rest = rest@;
                let ghost pre = parts@;
                proof {
                    lemma_join_push(old_parts, sep@, old_rest);
                    lemma_find_first_determined(old_rest, sep@, -1);
                    assert(split_sep(old_rest, sep@) == seq![old_rest]);
                }
                parts.push(rest);
                proof {
                    lemma_views_of_push(pre, pre.push(parts@.last()).last());
                    assert(views_of(parts@) == old_parts.push(old_rest));
                    if old_parts.len() > 0 {
                        assert(join_with(old_parts, sep@) + sep@ + old_rest =~= v@);
                    }
                    assert(join_with(views_of(parts@), sep@) =~= v@);
                    assert(views_of(parts@) =~= old_parts + seq![old_rest]);
                    assert(split_sep(v@, sep@) =~= views_of(parts@));
                }
                return parts;
            },
        }
    }
}

/// Index of the first whitespace character of `s` (or `s.len()` if none).
pub open spec fn first_ws_index(s: Seq<char>) -> int
    decreases s.len(),
{
    if s.len() == 0 {
        0
    } else if is_ws_char(s[0]) {
        0
    } else {
        1 + first_ws_index(s.drop_first())
    }
}

/// `first_ws_index` points at the first whitespace character.
pub proof fn lemma_first_ws_bounds(s: Seq<char>)
    ensures
        0 <= first_ws_index(s) <= s.len(),
        forall|i: int| 0 <= i < first_ws_index(s) ==> !is_ws_char(#[trigger] s[i]),
        first_ws_index(s) < s.len() ==> is_ws_char(s[first_ws_index(s)]),
    decreases s.len(),
{
    if s.len() > 0 && !is_ws_char(s[0]) {
        lemma_first_ws_bounds(s.drop_first());
        assert forall|i: int| 0 <= i < first_ws_index(s) implies !is_ws_char(#[trigger] s[i]) by {
            if i > 0 {
                assert(!is_ws_char(s.drop_first()[i - 1]));
            }
        }
    }
}

/// The index found by a linear scan is `first_ws_index`.
pub proof fn lemma_first_ws_determined(s: Seq<char>, k: int)
    requires
        0 <= k <= s.len(),
        forall|i: int| 0 <= i < k ==> !is_ws_char(#[trigger] s[i]),
        k < s.len() ==> is_ws_char(s[k]),
    ensures
        first_ws_index(s) == k,
    decreases s.len(),
{
    if s.len() == 0 {
    } else if is_ws_char(s[0]) {
        assert(k == 0);
    } else {
        assert(k >= 1);
        lemma_first_ws_determined(s.drop_first(), k - 1);
    }
}

/// The whitespace-delimited tokens of `s`: maximal runs of non-whitespace
/// characters, in order.
pub open spec fn ws_tokens(s: Seq<char>) -> Seq<Seq<char>>
    decreases s.len(),
    via ws_tokens_decreases
{
    if s.len() == 0 {
        Seq::empty()
    } else if is_ws_char(s[0]) {
        ws_tokens(s.drop_first())
    } else {
        let k = first_ws_index(s);
        seq![s.subrange(0, k)] + ws_tokens(s.subrange(k, s.len() as int))
    }
}

#[via_fn]
proof fn ws_tokens_decreases(s: Seq<char>) {
    if s.len() > 0 && !is_ws_char(s[0]) {
        lemma_first_ws_bounds(s);
        assert(first_ws_index(s) >= 1);
    }
}

/// Every token is non-empty and free of whitespace.
pub proof fn lemma_ws_tokens_wf(s: Seq<char>)
    ensures
        forall|t: int|
            0 <= t < ws_tokens(s).len() ==> {
                &&& #[trigger] ws_tokens(s)[t].len() > 0
                &&& forall|i: int|
                    0 <= i < ws_tokens(s)[t].len() ==> !is_ws_char(#[trigger] ws_tokens(s)[t][i])
            },
    decreases s.len(),
{
    if s.len() == 0 {
        assert(ws_tokens(s).len() == 0);
    } else if is_ws_char(s[0]) {
        lemma_ws_tokens_wf(s.drop_first());
        assert(ws_tokens(s) == ws_tokens(s.drop_first()));
    } else {
        lemma_first_ws_bounds(s);
        let k = first_ws_index(s);
        lemma_ws_tokens_wf(s.subrange(k, s.len() as int));
        assert forall|t: int| 0 <= t < ws_tokens(s).len() implies {
            &&& #[trigger] ws_tokens(s)[t].len() > 0
            &&& forall|i: int|
                0 <= i < ws_tokens(s)[t].len() ==> !is_ws_char(#[trigger] ws_tokens(s)[t][i])
        } by {
            if t == 0 {
                assert(ws_tokens(s)[0] == s.subrange(0, k));
                assert(k >= 1);
            } else {
                assert(ws_tokens(s)[t] == ws_tokens(s.subrange(k, s.len() as int))[t - 1]);
            }
        }
    }
}

/// Skipping one leading run of non-whitespace yields the tail tokens.
proof fn lemma_ws_tokens_run(s: Seq<char>, k: int)
    requires
        0 < k <= s.len(),
        forall|i: int| 0 <= i < k ==> !is_ws_char(#[trigger] s[i]),
        k < s.len() ==> is_ws_char(s[k]),
    ensures
        ws_tokens(s) == seq![s.subrange(0, k)] + ws_tokens(s.subrange(k, s.len() as int)),
{
    lemma_first_ws_determined(s, k);
}

/// The whitespace-delimited tokens of `v`.
pub fn tokenize(v: &Vec<char>) -> (r: Vec<Vec<char>>)
    ensures
        views_of(r@) == ws_tokens(v@),
{
    let n = v.len();
    let mut r: Vec<Vec<char>> = Vec::new();
    let mut i: usize = 0;
    proof {
        assert(views_of(r@) =~= Seq::<Seq<char>>::empty());
        assert(v@.subrange(0, n as int) =~= v@);
        assert(ws_tokens(v@) =~= views_of(r@) + ws_tokens(v@.subrange(0, n as int)));
    }
    while i < n
        invariant
            n == v@.len(),
            i <= n,
            ws_tokens(v@) == views_of(r@) + ws_tokens(v@.subrange(i as int, n as int)),
        decreases n - i,
    {
        if is_ws(v[i]) {
            proof {
                assert(v@.subrange(i as int, n as int).drop_first() =~= v@.subrange(
                    i as int + 1,
                    n as int,
                ));
            }
            i = i + 1;
        } else {
            let start = i;
            let mut j: usize = i + 1;
            while j < n && !is_ws(v[j])
                invariant
                    n == v@.len(),
                    start < j <= n,
                    forall|t: int| start <= t < j ==> !is_ws_char(#[trigger] v@[t]),
                    j < n ==> !is_ws_char(v@[j - 1]),
                decreases n - j,
            {
                j = j + 1;
            }
            let token = vec_range(v, start, j);
            proof {
                let ghost tail = v@.subrange(start as int, n as int);
                assert forall|t: int| 0 <= t < j - start implies !is_ws_char(
                    #[trigger] tail[t],
                ) by {
                    assert(tail[t] == v@[start + t]);
                }
                if j < n {
                    assert(tail[j - start] == v@[j as int]);
                }
                lemma_ws_tokens_run(tail, j - start);
                assert(tail.subrange(0, j - start) =~= v@.subrange(start as int, j as int));
                assert(tail.subrange(j - start, tail.len() as int) =~= v@.subrange(
                    j as int,
                    n as int,
                ));
                let ghost pre = r@;
                lemma_views_of_push(pre, token);
            }
            let ghost token_view = token@;
            let ghost pre = r@;
            r.push(token);
            proof {
                lemma_views_of_push(pre, r@.last());
                assert(views_of(r@) == views_of(pre).push(token_view));
                assert(views_of(pre) + (seq![token_view] + ws_tokens(
                    v@.subrange(j as int, n as int),
                )) =~= views_of(pre).push(token_view) + ws_tokens(v@.subrange(j as int, n as int)));
            }
            i = j;
        }
    }
    proof {
        assert(v@.subrange(i as int, n as int) =~= Seq::<char>::empty());
        assert(ws_tokens(v@) =~= views_of(r@));
    }
    r
}

/// The tokens of `s` carry exactly its visible characters.
pub proof fn lemma_ws_tokens_visible(s: Seq<char>)
    ensures
        visible_all(ws_tokens(s)) == visible(s),
    decreases s.len(),
{
    reveal(Seq::filter);
    if s.len() == 0 {
        assert(visible_all(ws_tokens(s)) =~= visible(s));
    } else if is_ws_char(s[0]) {
        lemma_ws_tokens_visible(s.drop_first());
        assert(s =~= seq![s[0]] + s.drop_first());
        Seq::filter_distributes_over_add(seq![s[0]], s.drop_first(), |c: char| !is_ws_char(c));
        assert(seq![s[0]].drop_last() =~= Seq::<char>::empty());
        assert(Seq::<char>::empty().filter(|c: char| !is_ws_char(c)) =~= Seq::<char>::empty());
        assert(seq![s[0]].filter(|c: char| !is_ws_char(c)) =~= Seq::<char>::empty());
        assert(visible(s) =~= visible(s.drop_first()));
    } else {
        lemma_first_ws_bounds(s);
        let k = first_ws_index(s);
        let head = s.subrange(0, k);
        let tail = s.subrange(k, s.len() as int);
        lemma_ws_tokens_visible(tail);
        assert(s =~= head + tail);
        Seq::filter_distributes_over_add(head, tail, |c: char| !is_ws_char(c));
        lemma_all_visible(head);
        assert(ws_tokens(s) == seq![head] + ws_tokens(tail));
        lemma_concat_all_prepend(head, ws_tokens(tail));
        Seq::filter_distributes_over_add(
            head,
            concat_all(ws_tokens(tail)),
            |c: char| !is_ws_char(c),
        );
        assert(visible_all(ws_tokens(s)) =~= visible(s));
    }
}

/// A sequence without whitespace is wholly visible.
pub proof fn lemma_all_visible(s: Seq<char>)
    requires
        forall|i: int| 0 <= i < s.len() ==> !is_ws_char(#[trigger] s[i]),
    ensures
        visible(s) == s,
    decreases s.len(),
{
    reveal(Seq::filter);
    if s.len() > 0 {
        lemma_all_visible(s.drop_last());
    }
    assert(visible(s) =~= s);
}

/// Concatenation after prepending one part.
pub proof fn lemma_concat_all_prepend(p: Seq<char>, parts: Seq<Seq<char>>)
    ensures
        concat_all(seq![p] + parts) == p + concat_all(parts),
{
    assert((seq![p] + parts).drop_first() =~= parts);
    assert((seq![p] + parts)[0] == p);
    assert(concat_all(seq![p] + parts) == p + concat_all(parts));
}

/// Plain concatenation of the parts.
pub open spec fn concat_all(parts: Seq<Seq<char>>) -> Seq<char>
    decreases parts.len(),
{
    if parts.len() == 0 {
        Seq::empty()
    } else {
        parts[0] + concat_all(parts.drop_first())
    }
}

/// Appending a part extends the concatenation at the end.
pub proof fn lemma_concat_all_push(parts: Seq<Seq<char>>, p: Seq<char>)
    ensures
        concat_all(parts.push(p)) == concat_all(parts) + p,
    decreases parts.len(),
{
    if parts.len() == 0 {
        assert(parts.push(p).drop_first() =~= Seq::<Seq<char>>::empty());
        assert(concat_all(Seq::<Seq<char>>::empty()) =~= Seq::<char>::empty());
        assert(parts.push(p)[0] == p);
        assert(concat_all(parts.push(p)) =~= p);
        assert(concat_all(parts) + p =~= p);
    } else {
        lemma_concat_all_push(parts.drop_first(), p);
        assert(parts.push(p).drop_first() =~= parts.drop_first().push(p));
        assert(parts[0] + (concat_all(parts.drop_first()) + p) =~= (parts[0] + concat_all(
            parts.drop_first(),
        )) + p);
        assert(concat_all(parts.push(p)) =~= concat_all(parts) + p);
    }
}

/// The visible characters of the concatenation of all parts.
pub open spec fn visible_all(parts: Seq<Seq<char>>) -> Seq<char> {
    visible(concat_all(parts))
}

/// Visible characters distribute over appending one part.
pub proof fn lemma_visible_all_push(parts: Seq<Seq<char>>, p: Seq<char>)
    ensures
        visible_all(parts.push(p)) == visible_all(parts) + visible(p),
{
    lemma_concat_all_push(parts, p);
    Seq::filter_distributes_over_add(concat_all(parts), p, |c: char| !is_ws_char(c));
}

/// The views of a sequence of strings.
pub open spec fn str_views(s: Seq<String>) -> Seq<Seq<char>> {
    s.map_values(|p: String| p@)
}

/// `str_views` commutes with `push`.
pub proof fn lemma_str_views_push(s: Seq<String>, p: String)
    ensures
        str_views(s.push(p)) == str_views(s).push(p@),
{
    assert(str_views(s.push(p)) =~= str_views(s).push(p@));
}

/// Whether two string slices hold the same characters.
pub fn str_eq(a: &str, b: &str) -> (r: bool)
    ensures
        r == (a@ == b@),
{
    let va = chars_of(a);
    let vb = chars_of(b);
    if va.len() != vb.len() {
        return false;
    }
    let n = va.len();
    let mut i: usize = 0;
    while i < n
        invariant
            n == va@.len() == vb@.len(),
            va@ == a@,
            vb@ == b@,
            i <= n,
            va@.subrange(0, i as int) == vb@.subrange(0, i as int),
        decreases n - i,
    {
        if va[i] != vb[i] {
            proof {
                assert(a@[i as int] != b@[i as int]);
            }
            return false;
        }
        i = i + 1;
        proof {
            assert(va@.subrange(0, i as int) =~= vb@.subrange(0, i as int));
        }
    }
    proof {
        assert(va@.subrange(0, n as int) =~= va@);
        assert(vb@.subrange(0, n as int) =~= vb@);
        assert(a@ =~= b@);
    }
    true
}

/// Join strings with a separator.
pub fn join_strings(parts: &Vec<String>, sep: &str) -> (r: String)
    ensures
        r@ == join_with(str_views(parts@), sep@),
{
    let n = parts.len();
    if n == 0 {
        let r = String::new();
        proof {
            assert(str_views(parts@).len() == 0);
        }
        return r;
    }
    let mut r = parts[0].clone();
    let mut i: usize = 1;
    proof {
        assert(str_views(parts@.subrange(0, 1))[0] == parts@[0]@);
        assert(r@ =~= join_with(str_views(parts@.subrange(0, 1)), sep@));
    }
    while i < n
        invariant
            n == parts@.len(),
            1 <= i <= n,
            r@ == join_with(str_views(parts@.subrange(0, i as int)), sep@),
        decreases n - i,
    {
        r.append(sep);
        r.append(parts[i].as_str());
        proof {
            let ghost prefix = str_views(parts@.subrange(0, i as int));
            lemma_join_push(prefix, sep@, parts@[i as int]@);
            assert(str_views(parts@.subrange(0, i as int + 1)) =~= prefix.push(parts@[i as int]@));
        }
        i = i + 1;
    }
    proof {
        assert(parts@.subrange(0, n as int) =~= parts@);
    }
    r
}

/// A copy of a vector of 32-bit words.
pub fn copy_u32s(v: &Vec<u32>) -> (r: Vec<u32>)
    ensures
        r@ == v@,
{
    let n = v.len();
    let mut r: Vec<u32> = Vec::new();
    let mut i: usize = 0;
    while i < n
        invariant
            n == v@.len(),
            i <= n,
            r@ == v@.subrange(0, i as int),
        decreases n - i,
    {
        r.push(v[i]);
        i = i + 1;
        proof {
            assert(r@ =~= v@.subrange(0, i as int));
        }
    }
    proof {
        assert(r@ =~= v@);
    }
    r
}

/// Append all characters of `src` to `dst`.
pub fn append_chars(dst: &mut Vec<char>, src: &Vec<char>)
    ensures
        final(dst)@ == old(dst)@ + src@,
{
    let n = src.len();
    let mut i: usize = 0;
    while i < n
        invariant
            n == src@.len(),
            i <= n,
            dst@ == old(dst)@ + src@.subrange(0, i as int),
        decreases n - i,
    {
        dst.push(src[i]);
        i = i + 1;
        proof {
            assert(dst@ =~= old(dst)@ + src@.subrange(0, i as int));
        }
    }
    proof {
        assert(dst@ =~= old(dst)@ + src@);
    }
}

/// Decimal digit character for `d`.
pub open spec fn dec_digit(d: int) -> char
    recommends
        0 <= d <= 9,
{
    (48 + d) as char
}

/// Decimal representation of a non-negative integer, most significant digit
/// first, with no leading zeros (a single `0` for zero).
pub open spec fn dec_str(n: int) -> Seq<char>
    recommends
        n >= 0,
    decreases n,
{
    if n < 10 {
        seq![dec_digit(n)]
    } else {
        dec_str(n / 10) + seq![dec_digit(n % 10)]
    }
}

/// Decimal digits of `n`.
pub fn u64_dec(n: u64) -> (r: Vec<char>)
    ensures
        r@ == dec_str(n as int),
    decreases n,
{
    if n < 10 {
        let c: char = ((48 + n) as u8) as char;
        let mut v: Vec<char> = Vec::new();
        proof {
            assert(c == dec_digit(n as int));
        }
        v.push(c);
        proof {
            assert(v@ =~= dec_str(n as int));
        }
        v
    } else {
        let mut v = u64_dec(n / 10);
        let d: u64 = n % 10;
        let c: char = ((48 + d) as u8) as char;
        proof {
            assert(c == dec_digit(d as int));
        }
        v.push(c);
        proof {
            assert(n as int / 10 == (n / 10) as int);
            assert(v@ =~= dec_str(n as int));
        }
        v
    }
}

/// Decimal representation of `n` as a string.
pub fn u64_string(n: u64) -> (r: String)
    ensures
        r@ == dec_str(n as int),
{
    let v = u64_dec(n);
    string_of(&v)
}

/// Index of the first visible character, or `s.len()` if there is none.
pub open spec fn first_vis(s: Seq<char>) -> int
    decreases s.len(),
{
    if s.len() == 0 {
        0
    } else if !is_ws_char(s[0]) {
        0
    } else {
        1 + first_vis(s.drop_first())
    }
}

/// Index of the last visible character, or `-1` if there is none.
pub open spec fn last_vis(s: Seq<char>) -> int
    decreases s.len(),
{
    if s.len() == 0 {
        -1
    } else if !is_ws_char(s.last()) {
        s.len() - 1
    } else {
        last_vis(s.drop_last())
    }
}

/// `s` with leading and trailing whitespace removed.
pub open spec fn trim_spec(s: Seq<char>) -> Seq<char> {
    if last_vis(s) >= 0 {
        s.subrange(first_vis(s), last_vis(s) + 1)
    } else {
        Seq::empty()
    }
}

/// The index found by a left scan is `first_vis`.
pub proof fn lemma_first_vis_determined(s: Seq<char>, k: int)
    requires
        0 <= k <= s.len(),
        forall|i: int| 0 <= i < k ==> is_ws_char(#[trigger] s[i]),
        k < s.len() ==> !is_ws_char(s[k]),
    ensures
        first_vis(s) == k,
    decreases s.len(),
{
    if s.len() == 0 {
    } else if !is_ws_char(s[0]) {
        assert(k == 0);
    } else {
        assert(k >= 1);
        assert forall|i: int| 0 <= i < k - 1 implies is_ws_char(#[trigger] s.drop_first()[i]) by {
            assert(s.drop_first()[i] == s[i + 1]);
        }
        lemma_first_vis_determined(s.drop_first(), k - 1);
    }
}

/// The index found by a right scan is `last_vis`.
pub proof fn lemma_last_vis_determined(s: Seq<char>, k: int)
    requires
        -1 <= k < s.len(),
        forall|i: int| k < i < s.len() ==> is_ws_char(#[trigger] s[i]),
        k >= 0 ==> !is_ws_char(s[k]),
    ensures
        last_vis(s) == k,
    decreases s.len(),
{
    if s.len() == 0 {
    } else if !is_ws_char(s.last()) {
        assert(k == s.len() - 1);
    } else {
        lemma_last_vis_determined(s.drop_last(), k);
    }
}

/// `s` trimmed of leading and trailing whitespace.
pub fn trim_exact(v: &Vec<char>) -> (r: Vec<char>)
    ensures
        r@ == trim_spec(v@),
{
    let n = v.len();
    let mut a: usize = 0;
    while a < n && is_ws(v[a])
        invariant
            n == v@.len(),
            a <= n,
            forall|i: int| 0 <= i < a ==> is_ws_char(#[trigger] v@[i]),
        decreases n - a,
    {
        a = a + 1;
    }
    proof {
        lemma_first_vis_determined(v@, a as int);
    }
    if a == n {
        proof {
            if last_vis(v@) >= 0 {
                lemma_last_vis_bounds(v@);
                assert(!is_ws_char(v@[last_vis(v@)]));
            }
        }
        return Vec::new();
    }
    let mut b: usize = n;
    while b > 0 && is_ws(v[b - 1])
        invariant
            n == v@.len(),
            b <= n,
            forall|i: int| b <= i < n ==> is_ws_char(#[trigger] v@[i]),
        decreases b,
    {
        b = b - 1;
    }
    proof {
        lemma_last_vis_determined(v@, b as int - 1);
        assert(b as int - 1 >= a as int);
    }
    vec_range(v, a, b)
}

/// `last_vis` points at a visible character when it is non-negative.
pub proof fn lemma_last_vis_bounds(s: Seq<char>)
    ensures
        -1 <= last_vis(s) < s.len(),
        last_vis(s) >= 0 ==> !is_ws_char(s[last_vis(s)]),
    decreases s.len(),
{
    if s.len() > 0 && is_ws_char(s.last()) {
        lemma_last_vis_bounds(s.drop_last());
    }
}

/// Index of the first occurrence of `needle` in `hay`, or `-1` if none.
pub open spec fn find_first(hay: Seq<char>, needle: Seq<char>) -> int
    decreases hay.len(),
{
    if hay.len() < needle.len() {
        -1
    } else if hay.subrange(0, needle.len() as int) == needle {
        0
    } else if hay.len() == 0 {
        -1
    } else {
        let t = find_first(hay.drop_first(), needle);
        if t == -1 {
            -1
        } else {
            1 + t
        }
    }
}

/// The index found by `find_sub` is `find_first`.
pub proof fn lemma_find_first_determined(hay: Seq<char>, needle: Seq<char>, k: int)
    requires
        -1 <= k,
        k >= 0 ==> match_at(hay, needle, k),
        forall|j: int| 0 <= j < k ==> !match_at(hay, needle, j),
        k == -1 ==> !contains_seq(hay, needle),
    ensures
        find_first(hay, needle) == k,
    decreases hay.len(),
{
    if hay.len() < needle.len() {
        if k >= 0 {
            assert(false);
        }
    } else if hay.subrange(0, needle.len() as int) == needle {
        assert(match_at(hay, needle, 0));
        if k == -1 {
            assert(contains_seq(hay, needle));
        }
        assert(k == 0);
    } else {
        assert(needle.len() >= 1) by {
            if needle.len() == 0 {
                assert(hay.subrange(0, 0) =~= needle);
            }
        }
        assert(hay.len() >= 1);
        assert(!match_at(hay, needle, 0)) by {
            if match_at(hay, needle, 0) {
                assert(hay.subrange(0, needle.len() as int) == needle);
            }
        }
        if k == -1 {
            assert forall|j: int| 0 <= j < hay.drop_first().len() implies !match_at(
                hay.drop_first(),
                needle,
                j,
            ) by {
                if match_at(hay.drop_first(), needle, j) {
                    let m = needle.len() as int;
                    assert(j + m <= hay.drop_first().len());
                    assert forall|t: int| 0 <= t < m implies hay.subrange(j + 1, j + 1 + m)[t]
                        == needle[t] by {
                        assert(hay.drop_first().subrange(j, j + m)[t] == needle[t]);
                        assert(hay.drop_first()[j + t] == hay[j + 1 + t]);
                    }
                    assert(hay.subrange(j + 1, j + 1 + m) =~= needle);
                    assert(match_at(hay, needle, j + 1));
                }
            }
            if contains_seq(hay.drop_first(), needle) {
                let j = choose|j: int| match_at(hay.drop_first(), needle, j);
                assert(false);
            }
            lemma_find_first_determined(hay.drop_first(), needle, -1);
        } else {
            assert(k >= 1);
            assert(match_at(hay.drop_first(), needle, k - 1)) by {
                assert(hay.drop_first().subrange(k - 1, k - 1 + needle.len() as int) =~= hay.subrange(
                    k,
                    k + needle.len() as int,
                ));
            }
            assert forall|j: int| 0 <= j < k - 1 implies !match_at(
                hay.drop_first(),
                needle,
                j,
            ) by {
                if match_at(hay.drop_first(), needle, j) {
                    let m = needle.len() as int;
                    assert(j + m <= hay.drop_first().len());
                    assert forall|t: int| 0 <= t < m implies hay.subrange(j + 1, j + 1 + m)[t]
                        == needle[t] by {
                        assert(hay.drop_first().subrange(j, j + m)[t] == needle[t]);
                        assert(hay.drop_first()[j + t] == hay[j + 1 + t]);
                    }
                    assert(hay.subrange(j + 1, j + 1 + m) =~= needle);
                    assert(match_at(hay, needle, j + 1));
                }
            }
            lemma_find_first_determined(hay.drop_first(), needle, k - 1);
        }
    }
}

/// First occurrence of `needle` in `hay`, tied to `find_first`.
pub fn find_first_sub(hay: &Vec<char>, needle: &Vec<char>) -> (r: Option<usize>)
    ensures
        match r {
            Some(i) => find_first(hay@, needle@) == i as int && i + needle@.len() <= hay@.len()
                && match_at(hay@, needle@, i as int),
            None => find_first(hay@, needle@) == -1,
        },
{
    let r = find_sub(hay, needle);
    proof {
        match r {
            Some(i) => {
                lemma_find_first_determined(hay@, needle@, i as int);
            },
            None => {
                lemma_find_first_determined(hay@, needle@, -1);
            },
        }
    }
    r
}

/// Index of the last occurrence of the character, or `-1` if none.
pub open spec fn last_char(s: Seq<char>, c: char) -> int
    decreases s.len(),
{
    if s.len() == 0 {
        -1
    } else if s.last() == c {
        s.len() - 1
    } else {
        last_char(s.drop_last(), c)
    }
}

/// The index found by a right scan is `last_char`.
pub proof fn lemma_last_char_determined(s: Seq<char>, c: char, k: int)
    requires
        -1 <= k < s.len(),
        k >= 0 ==> s[k] == c,
        forall|i: int| k < i < s.len() ==> s[i] != c,
    ensures
        last_char(s, c) == k,
    decreases s.len(),
{
    if s.len() == 0 {
    } else if s.last() == c {
        assert(k == s.len() - 1);
    } else {
        lemma_last_char_determined(s.drop_last(), c, k);
    }
}

/// `find_first` lands on a match when it is non-negative.
pub proof fn lemma_find_first_match(hay: Seq<char>, needle: Seq<char>)
    ensures
        find_first(hay, needle) >= -1,
        find_first(hay, needle) >= 0 ==> match_at(hay, needle, find_first(hay, needle)),
    decreases hay.len(),
{
    if hay.len() < needle.len() {
    } else if hay.subrange(0, needle.len() as int) == needle {
        assert(match_at(hay, needle, 0));
    } else if hay.len() == 0 {
    } else {
        lemma_find_first_match(hay.drop_first(), needle);
        let t = find_first(hay.drop_first(), needle);
        if t >= 0 {
            assert(match_at(hay.drop_first(), needle, t));
            let m = needle.len() as int;
            assert forall|q: int| 0 <= q < m implies hay.subrange(t + 1, t + 1 + m)[q]
                == needle[q] by {
                assert(hay.drop_first().subrange(t, t + m)[q] == needle[q]);
                assert(hay.drop_first()[t + q] == hay[t + 1 + q]);
            }
            assert(hay.subrange(t + 1, t + 1 + m) =~= needle);
            assert(match_at(hay, needle, t + 1));
        }
    }
}

/// `s` split on the leftmost occurrences of `sep`, in order; the one-piece
/// split when `sep` is empty.
pub open spec fn split_sep(s: Seq<char>, sep: Seq<char>) -> Seq<Seq<char>>
    decreases s.len(),
    via split_sep_decreases
{
    if sep.len() == 0 {
        seq![s]
    } else {
        let j = find_first(s, sep);
        if j < 0 {
            seq![s]
        } else {
            seq![s.subrange(0, j)] + split_sep(s.subrange(j + sep.len(), s.len() as int), sep)
        }
    }
}

#[via_fn]
proof fn split_sep_decreases(s: Seq<char>, sep: Seq<char>) {
    lemma_find_first_match(s, sep);
}

/// The three facts `trim_ws` ensures pin its result: it is exactly
/// `trim_spec` of the input.
pub proof fn lemma_trim_ws_is_spec(orig: Seq<char>, r: Seq<char>)
    requires
        exists|a: int, b: int|
            {
                &&& 0 <= a <= b <= orig.len()
                &&& r == orig.subrange(a, b)
                &&& all_ws(orig.subrange(0, a))
                &&& all_ws(orig.subrange(b, orig.len() as int))
            },
        r.len() > 0 ==> !is_ws_char(r[0]) && !is_ws_char(r[r.len() - 1]),
    ensures
        r == trim_spec(orig),
{
    let (a, b) = choose|a: int, b: int|
        {
            &&& 0 <= a <= b <= orig.len()
            &&& r == orig.subrange(a, b)
            &&& all_ws(orig.subrange(0, a))
            &&& all_ws(orig.subrange(b, orig.len() as int))
        };
    if r.len() == 0 {
        assert(a == b);
        assert forall|i: int| 0 <= i < orig.len() implies is_ws_char(#[trigger] orig[i]) by {
            if i < a {
                assert(is_ws_char(orig.subrange(0, a)[i]));
            } else {
                assert(is_ws_char(orig.subrange(b, orig.len() as int)[i - b]));
            }
        }
        lemma_last_vis_determined(orig, -1);
    } else {
        assert(orig[a] == r[0]);
        assert(orig[b - 1] == r[r.len() - 1]);
        assert forall|i: int| 0 <= i < a implies is_ws_char(#[trigger] orig[i]) by {
            assert(is_ws_char(orig.subrange(0, a)[i]));
        }
        assert forall|i: int| b - 1 < i < orig.len() implies is_ws_char(#[trigger] orig[i]) by {
            assert(is_ws_char(orig.subrange(b, orig.len() as int)[i - b]));
        }
        lemma_first_vis_determined(orig, a);
        lemma_last_vis_determined(orig, b - 1);
        assert(r =~= trim_spec(orig));
    }
}

/// Last occurrence of the character, tied to `last_char`.
pub fn last_char_index(v: &Vec<char>, c: char) -> (r: Option<usize>)
    ensures
        match r {
            Some(i) => last_char(v@, c) == i as int && i < v@.len() && v@[i as int] == c,
            None => last_char(v@, c) == -1,
        },
{
    let n = v.len();
    let mut b: usize = n;
    while b > 0 && v[b - 1] != c
        invariant
            n == v@.len(),
            b <= n,
            forall|i: int| b <= i < n ==> v@[i] != c,
        decreases b,
    {
        b = b - 1;
    }
    proof {
        lemma_last_char_determined(v@, c, b as int - 1);
    }
    if b == 0 {
        None
    } else {
        Some(b - 1)
    }
}

/// A score in millionths rendered with three decimals: the whole part, a
/// dot, and the first three fractional digits, with a leading minus sign for
/// a negative value.
pub open spec fn score_text(v: int) -> Seq<char> {
    if v < 0 {
        seq!['-'] + score_text_nn(-v)
    } else {
        score_text_nn(v)
    }
}

/// `score_text` for a non-negative value.
pub open spec fn score_text_nn(v: int) -> Seq<char>
    recommends
        v >= 0,
{
    let whole = v / 1000000;
    let frac = (v % 1000000) / 1000;
    dec_str(whole) + seq!['.', dec_digit(frac / 100), dec_digit((frac / 10) % 10), dec_digit(
        frac % 10,
    )]
}

/// Render a score held in millionths with three decimals.
pub fn fmt_millionths(v: i64) -> (r: Vec<char>)
    requires
        v > i64::MIN,
    ensures
        r@ == score_text(v as int),
{
    let neg = v < 0;
    let a: u64 = if neg {
        (-v) as u64
    } else {
        v as u64
    };
    let whole: u64 = a / 1000000;
    let frac: u64 = (a % 1000000) / 1000;
    let mut r: Vec<char> = Vec::new();
    if neg {
        r.push('-');
    }
    let mut digits = u64_dec(whole);
    append_chars(&mut r, &digits);
    r.push('.');
    r.push(((48 + frac / 100) as u8) as char);
    r.push(((48 + (frac / 10) % 10) as u8) as char);
    r.push(((48 + frac % 10) as u8) as char);
    proof {
        let av = a as int;
        assert(av == if v < 0 {
            -(v as int)
        } else {
            v as int
        });
        assert(whole as int == av / 1000000);
        assert(frac as int == (av % 1000000) / 1000);
        assert(((48 + frac / 100) as u8) as char == dec_digit(frac as int / 100));
        assert(((48 + (frac / 10) % 10) as u8) as char == dec_digit((frac as int / 10) % 10));
        assert(((48 + frac % 10) as u8) as char == dec_digit(frac as int % 10));
        if neg {
            assert(r@ =~= seq!['-'] + score_text_nn(-(v as int)));
        } else {
            assert(r@ =~= score_text_nn(v as int));
        }
    }
    r
}

/// `s` shortened to at most `max_len` characters; a longer string is cut at
/// `max_len - 1` and finished with an ellipsis.
pub fn truncate(s: &str, max_len: usize) -> (r: String)
    requires
        max_len >= 1,
    ensures
        s@.len() <= max_len ==> r@ == s@,
        s@.len() > max_len ==> r@ == s@.subrange(0, max_len - 1).push('\u{2026}'),
{
    let v = chars_of(s);
    if v.len() <= max_len {
        string_of(&v)
    } else {
        let mut cut = vec_range(&v, 0, max_len - 1);
        cut.push('\u{2026}');
        string_of(&cut)
    }
}

} // verus!
