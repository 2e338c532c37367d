use vstd::prelude::*;
use vstd::set_lib::lemma_len_intersect;
use vstd::seq_lib::seq_to_set_is_finite;
use crate::text::{chars_of, chars_eq, normalize_chars, lowercase, lower_of, tokens, normalized, tokenize_chars};

verus! {

/// The distinct tokens of a text.
pub open spec fn token_set(t: Seq<char>) -> Set<Seq<char>> {
    tokens(t).to_set()
}

/// Token-set sizes behind the lexical score: the score is `hits` over the
/// square root of `query_tokens * doc_tokens`, the root floored at 1.
#[derive(Clone, Copy, Debug, PartialEq, Eq, Structural)]
pub struct Overlap {
    pub hits: usize,
    pub query_tokens: usize,
    pub doc_tokens: usize,
}

/// The overlap of two token sets.
pub open spec fn overlap_of(q: Set<Seq<char>>, d: Set<Seq<char>>, o: Overlap) -> bool {
    o.hits == q.intersect(d).len() && o.query_tokens == q.len() && o.doc_tokens == d.len()
}

fn contains_word(ws: &Vec<Vec<char>>, w: &Vec<char>) -> (r: bool)
    ensures
        r == ws@.map_values(|v: Vec<char>| v@).contains(w@),
{
    let ghost vs = ws@.map_values(|v: Vec<char>| v@);
    let mut k: usize = 0;
    while k < ws.len()
        invariant
            vs == ws@.map_values(|v: Vec<char>| v@),
            k <= ws@.len(),
            forall|m: int| 0 <= m < k ==> vs[m] != w@,
        decreases ws@.len() - k,
    {
        if chars_eq(&ws[k], w) {
            assert(vs[k as int] == w@);
            return true;
        }
        k = k + 1;
    }
    false
}

/// The distinct words of `ws`, in order of first appearance.
fn distinct_words(ws: Vec<Vec<char>>) -> (r: Vec<Vec<char>>)
    ensures
        r@.map_values(|v: Vec<char>| v@).no_duplicates(),
        r@.map_values(|v: Vec<char>| v@).to_set() == ws@.map_values(|v: Vec<char>| v@).to_set(),
{

    let ghost all = ws@.map_values(|v: Vec<char>| v@);
    let mut out: Vec<Vec<char>> = Vec::new();
    let mut i: usize = 0;
    assert(all.take(0).to_set() =~= out@.map_values(|v: Vec<char>| v@).to_set());
    while i < ws.len()
        invariant
            all == ws@.map_values(|v: Vec<char>| v@),
            i <= ws@.len(),
            out@.map_values(|v: Vec<char>| v@).no_duplicates(),
            out@.map_values(|v: Vec<char>| v@).to_set() == all.take(i as int).to_set(),
        decreases ws@.len() - i,
    {
        assert(all.take(i as int + 1) =~= all.take(i as int).push(all[i as int]));
        proof {
            all.take(i as int).lemma_push_to_set_commute(all[i as int]);
        }
        let ghost before = out@.map_values(|v: Vec<char>| v@);
        if !contains_word(&out, &ws[i]) {
            out.push(ws[i].clone());
            assert(out@.map_values(|v: Vec<char>| v@) =~= before.push(all[i as int]));
            proof {
                before.lemma_push_to_set_commute(all[i as int]);
            }
        } else {
            assert(before.to_set().contains(all[i as int]));
            assert(before.to_set().insert(all[i as int]) =~= before.to_set());
        }
        i = i + 1;
    }
    assert(all.take(i as int) =~= all);
    out
}

/// Counts how many of the distinct words `q` occur among the distinct words `d`.
fn count_shared(q: &Vec<Vec<char>>, d: &Vec<Vec<char>>) -> (r: usize)
    requires
        q@.map_values(|v: Vec<char>| v@).no_duplicates(),
    ensures
        r == q@.map_values(|v: Vec<char>| v@).to_set().intersect(
            d@.map_values(|v: Vec<char>| v@).to_set(),
        ).len(),
{
    broadcast use seq_to_set_is_finite;

    let ghost qs = q@.map_values(|v: Vec<char>| v@);
    let ghost ds = d@.map_values(|v: Vec<char>| v@).to_set();
    let mut hits: usize = 0;
    let mut i: usize = 0;
    assert(qs.take(0).to_set().intersect(ds) =~= Set::<Seq<char>>::empty());
    while i < q.len()
        invariant
            qs == q@.map_values(|v: Vec<char>| v@),
            qs.no_duplicates(),
            ds == d@.map_values(|v: Vec<char>| v@).to_set(),
            i <= q@.len(),
            hits <= i,
            hits == qs.take(i as int).to_set().intersect(ds).len(),
        decreases q@.len() - i,
    {
        let ghost w = qs[i as int];
        let ghost a = qs.take(i as int).to_set();
        assert(qs.take(i as int + 1) =~= qs.take(i as int).push(w));
        proof {
            qs.take(i as int).lemma_push_to_set_commute(w);
        }
        assert(!a.contains(w)) by {
            if a.contains(w) {
                let m = choose|m: int| 0 <= m < i && qs.take(i as int)[m] == w;
                assert(qs[m] == qs[i as int]);
            }
        }
        assert(a.intersect(ds).finite());
        if contains_word(d, &q[i]) {
            assert(ds.contains(w));
            assert(a.insert(w).intersect(ds) =~= a.intersect(ds).insert(w));
            hits = hits + 1;
        } else {
            assert(a.insert(w).intersect(ds) =~= a.intersect(ds));
        }
        i = i + 1;
    }
    assert(qs.take(i as int) =~= qs);
    hits
}

/// Token-set overlap of two texts that are already lower-cased.
pub fn token_overlap_lowered(query: &str, doc: &str) -> (r: Overlap)
    ensures
        overlap_of(token_set(query@), token_set(doc@), r),
{
    let qv = chars_of(query);
    let dv = chars_of(doc);
    let q = distinct_words(tokenize_chars(&qv));
    let d = distinct_words(tokenize_chars(&dv));
    let hits = count_shared(&q, &d);
    proof {
        q@.map_values(|v: Vec<char>| v@).unique_seq_to_set();
        d@.map_values(|v: Vec<char>| v@).unique_seq_to_set();
    }
    Overlap { hits, query_tokens: q.len(), doc_tokens: d.len() }
}

/// Token-set overlap of a query and a document, each normalized and
/// lower-cased first.
pub fn token_overlap(query: &str, doc: &str) -> (r: Overlap)
    ensures
        overlap_of(
            token_set(lower_of(normalized(query@))),
            token_set(lower_of(normalized(doc@))),
            r,
        ),
{
    let q = crate::text::normalize_text(query);
    let d = crate::text::normalize_text(doc);
    let ql = lowercase(q.as_str());
    let dl = lowercase(d.as_str());
    token_overlap_lowered(ql.as_str(), dl.as_str())
}

/// The lexical score lies in [0, 1], and is 0 where either text has no
/// token: the shared tokens are no more than the tokens of either side, so
/// their square is at most the product of the two counts.
pub proof fn lemma_overlap_score_bounded(a: Seq<char>, b: Seq<char>)
    ensures
        token_set(a).intersect(token_set(b)).len() <= token_set(a).len(),
        token_set(a).intersect(token_set(b)).len() <= token_set(b).len(),
        token_set(a).intersect(token_set(b)).len() * token_set(a).intersect(token_set(b)).len()
            <= token_set(a).len() * token_set(b).len(),
        token_set(a).len() == 0 || token_set(b).len() == 0 ==> token_set(a).intersect(
            token_set(b),
        ).len() == 0,
{
    let q = token_set(a);
    let d = token_set(b);
    seq_to_set_is_finite(tokens(a));
    seq_to_set_is_finite(tokens(b));
    lemma_len_intersect(q, d);
    lemma_len_intersect(d, q);
    assert(d.intersect(q) =~= q.intersect(d));
    let h = q.intersect(d).len();
    let x = q.len();
    let y = d.len();
    assert(h * h <= x * y) by (nonlinear_arith)
        requires
            h <= x,
            h <= y,
    ;
}

/// Item `a` ranks before item `b`: a higher key, or an equal key and an
/// earlier position.
pub open spec fn ranks_before(keys: Seq<u64>, a: int, b: int) -> bool {
    keys[a] > keys[b] || (keys[a] == keys[b] && a < b)
}

/// The number of items a search returns at most.
pub open spec fn effective_limit(limit: Option<usize>) -> nat {
    match limit {
        Some(n) => n as nat,
        None => 6,
    }
}

/// `r` lists, best first, the positions of the keys at or above `min_key`:
/// at most `lim` of them, ordered by key with ties in input order, and none
/// left out that ranks before one taken.
pub open spec fn ranked(keys: Seq<u64>, min_key: u64, lim: nat, r: Seq<usize>) -> bool {
    &&& r.len() <= lim
    &&& forall|a: int| 0 <= a < r.len() ==> r[a] < keys.len() && keys[r[a] as int] >= min_key
    &&& forall|a: int, b: int| 0 <= a < b < r.len() ==> ranks_before(keys, r[a] as int, r[b] as int)
    &&& forall|j: int|
        0 <= j < keys.len() && keys[j] >= min_key && !r.contains(j as usize) ==> r.len() == lim
            && forall|a: int| 0 <= a < r.len() ==> ranks_before(keys, r[a] as int, j)
}

/// Position `m` may still be taken after the positions in `out`.
pub open spec fn eligible(keys: Seq<u64>, min_key: u64, out: Seq<usize>, m: int) -> bool {
    keys[m] >= min_key && (out.len() == 0 || ranks_before(keys, out.last() as int, m))
}

/// `best` is the first-ranked eligible position below `j`, if there is one.
pub open spec fn best_below(keys: Seq<u64>, min_key: u64, out: Seq<usize>, j: int, best: Option<usize>) -> bool {
    match best {
        Some(b) => b < j && eligible(keys, min_key, out, b as int) && forall|m: int|
            0 <= m < j && eligible(keys, min_key, out, m) ==> m == b || ranks_before(keys, b as int, m),
        None => forall|m: int| 0 <= m < j ==> !eligible(keys, min_key, out, m),
    }
}

fn best_candidate(keys: &Vec<u64>, min_key: u64, out: &Vec<usize>) -> (best: Option<usize>)
    requires
        forall|a: int| 0 <= a < out@.len() ==> out@[a] < keys@.len(),
    ensures
        best_below(keys@, min_key, out@, keys@.len() as int, best),
{
    let n = keys.len();
    let mut best: Option<usize> = None;
    let mut j: usize = 0;
    while j < n
        invariant
            n == keys@.len(),
            j <= n,
            forall|a: int| 0 <= a < out@.len() ==> out@[a] < keys@.len(),
            best_below(keys@, min_key, out@, j as int, best),
        decreases n - j,
    {
        let k = keys[j];
        let after = if out.len() == 0 {
            true
        } else {
            let last = out[out.len() - 1];
            keys[last] > k || (keys[last] == k && last < j)
        };
        assert(after == (out@.len() == 0 || ranks_before(keys@, out@.last() as int, j as int)));
        let ghost old_best = best;
        if k >= min_key && after {
            match best {
                None => {
                    best = Some(j);
                },
                Some(b) => {
                    if k > keys[b] {
                        best = Some(j);
                    }
                },
            }
        }
        proof {
            match best {
                Some(b) => {
                    assert forall|m: int|
                        0 <= m < j + 1 && eligible(keys@, min_key, out@, m) implies m == b
                            || ranks_before(keys@, b as int, m) by {
                        if m < j {
                            match old_best {
                                Some(ob) => {
                                    assert(m == ob || ranks_before(keys@, ob as int, m));
                                },
                                None => {},
                            }
                        }
                    }
                },
                None => {},
            }
        }
        j = j + 1;
    }
    best
}

/// Picks the best-scoring positions: keys below `min_key` are dropped, the
/// rest are ordered by descending key (ties keep input order), and the first
/// `limit` (6 when absent; none for a limit of 0) are returned.
pub fn rank_scores(keys: &Vec<u64>, min_key: u64, limit: Option<usize>) -> (r: Vec<usize>)
    ensures
        ranked(keys@, min_key, effective_limit(limit), r@),
{
    let lim: usize = match limit {
        Some(n) => n,
        None => 6,
    };
    let n = keys.len();
    let mut out: Vec<usize> = Vec::new();
    let mut done = false;
    while out.len() < lim && !done
        invariant
            n == keys@.len(),
            lim == effective_limit(limit),
            out@.len() <= lim,
            forall|a: int| 0 <= a < out@.len() ==> out@[a] < n && keys@[out@[a] as int] >= min_key,
            forall|a: int, b: int|
                0 <= a < b < out@.len() ==> ranks_before(keys@, out@[a] as int, out@[b] as int),
            forall|j: int|
                0 <= j < n && keys@[j] >= min_key ==> out@.contains(j as usize) || (!done
                    && eligible(keys@, min_key, out@, j)),
        decreases lim - out@.len() + (if done { 0int } else { 1int }),
    {
        let best = best_candidate(keys, min_key, &out);
        match best {
            None => {
                proof {
                    assert forall|j2: int|
                        0 <= j2 < n && keys@[j2] >= min_key implies out@.contains(j2 as usize) by {
                        assert(!eligible(keys@, min_key, out@, j2));
                    }
                }
                done = true;
            },
            Some(b) => {
                let ghost old_out = out@;
                out.push(b);
                proof {
                    assert(out@.last() == b);
                    assert forall|j2: int|
                        0 <= j2 < n && keys@[j2] >= min_key implies out@.contains(j2 as usize) || (!done
                            && eligible(keys@, min_key, out@, j2)) by {
                        if old_out.contains(j2 as usize) {
                            let w = choose|w: int| 0 <= w < old_out.len() && old_out[w] == j2 as usize;
                            assert(out@[w] == j2 as usize);
                        } else if j2 == b as int {
                            assert(out@[old_out.len() as int] == b);
                        } else {
                            assert(eligible(keys@, min_key, old_out, j2));
                            assert(ranks_before(keys@, b as int, j2));
                            assert(!out@.contains(j2 as usize) ==> eligible(keys@, min_key, out@, j2));
                        }
                    }
                    assert forall|a: int, c: int|
                        0 <= a < c < out@.len() implies ranks_before(keys@, out@[a] as int, out@[c] as int) by {
                        if c == out@.len() - 1 {
                            if a < old_out.len() - 1 {
                                assert(ranks_before(keys@, old_out[a] as int, old_out.last() as int));
                            }
                        } else {
                            assert(out@[a] == old_out[a] && out@[c] == old_out[c]);
                        }
                    }
                }
            },
        }
    }
    proof {
        assert forall|j: int|
            0 <= j < keys@.len() && keys@[j] >= min_key && !out@.contains(j as usize) implies out@.len()
                == lim && forall|a: int| 0 <= a < out@.len() ==> ranks_before(keys@, out@[a] as int, j) by {
            assert(eligible(keys@, min_key, out@, j));
            assert forall|a: int| 0 <= a < out@.len() implies ranks_before(keys@, out@[a] as int, j) by {
                if a < out@.len() - 1 {
                    assert(ranks_before(keys@, out@[a] as int, out@.last() as int));
                }
            }
        }
    }
    out
}

/// Selects the memory items to return for `query`, given each item's
/// composite score as an order-preserving key: nothing for a query that is
/// blank after normalization, else the ranked positions of `rank_scores`,
/// at most `limit` of them (6 when absent).
pub fn select_memory(query: &str, keys: &Vec<u64>, min_key: u64, limit: Option<usize>) -> (r: Vec<usize>)
    ensures
        normalized(query@).len() == 0 ==> r@.len() == 0,
        normalized(query@).len() > 0 ==> ranked(keys@, min_key, effective_limit(limit), r@),
{
    let q = normalize_chars(&chars_of(query));
    if q.len() == 0 {
        return Vec::new();
    }
    rank_scores(keys, min_key, limit)
}

} // verus!
