use vstd::prelude::*;

use crate::ranking::{is_desc, lemma_sort_props, rank_desc, sort_desc, Hit};
use crate::text::{copy_string, same_text};

verus! {

// Similarity scores are integers that order as the similarities they stand
// for: only their order and their comparison with a threshold matter here.
// A caller may map each score to a key that keeps the order exactly, or to
// whole parts per million.

/// A proposed relationship between two items, with their similarity.
#[derive(Debug)]
pub struct SimilarPair {
    pub source_id: String,
    pub target_id: String,
    pub similarity: i64,
}

/// A settled item of the corpus with its similarity to the vector searched for.
#[derive(Debug)]
pub struct ScoredItem {
    pub id: String,
    pub score: i64,
}

/// The corpus entries that a search keeps, in corpus order: every entry but
/// the excluded id, at or above the threshold.
pub open spec fn kept_hits(c: Seq<ScoredItem>, exclude: Seq<char>, threshold: i64) -> Seq<Hit>
    decreases c.len(),
{
    if c.len() == 0 {
        Seq::empty()
    } else {
        let i = c.len() - 1;
        let prev = kept_hits(c.drop_last(), exclude, threshold);
        if c[i].id@ != exclude && c[i].score >= threshold {
            prev.push((i as usize, c[i].score))
        } else {
            prev
        }
    }
}

pub open spec fn min_len(k: usize, n: nat) -> int {
    if k < n {
        k as int
    } else {
        n as int
    }
}

/// The ranking a corpus search returns: kept entries by falling score,
/// equal scores in corpus order, at most `limit` of them.
pub open spec fn corpus_ranking(c: Seq<ScoredItem>, exclude: Seq<char>, limit: usize, threshold: i64) -> Seq<Hit> {
    let s = sort_desc(kept_hits(c, exclude, threshold));
    s.take(min_len(limit, s.len()))
}

proof fn lemma_kept_hits(c: Seq<ScoredItem>, exclude: Seq<char>, threshold: i64)
    requires
        c.len() <= usize::MAX,
    ensures
        forall|q: int|
            0 <= q < kept_hits(c, exclude, threshold).len() ==> {
                let h = #[trigger] kept_hits(c, exclude, threshold)[q];
                &&& 0 <= h.0 < c.len()
                &&& c[h.0 as int].id@ != exclude
                &&& h.1 == c[h.0 as int].score
                &&& h.1 >= threshold
            },
    decreases c.len(),
{
    if c.len() > 0 {
        let t = c.drop_last();
        lemma_kept_hits(t, exclude, threshold);
        let prev = kept_hits(t, exclude, threshold);
        let r = kept_hits(c, exclude, threshold);
        assert forall|q: int| 0 <= q < prev.len() implies c[prev[q].0 as int] == t[prev[q].0 as int] by {
            assert(0 <= prev[q].0 < t.len());
        }
        assert forall|q: int| 0 <= q < r.len() implies {
            let h = #[trigger] r[q];
            &&& 0 <= h.0 < c.len()
            &&& c[h.0 as int].id@ != exclude
            &&& h.1 == c[h.0 as int].score
            &&& h.1 >= threshold
        } by {
            if q < prev.len() {
                assert(r[q] == prev[q]);
                assert(0 <= prev[q].0 < t.len());
                assert(c[prev[q].0 as int] == t[prev[q].0 as int]);
            }
        }
    }
}

/// Searches the corpus for the items most similar to the one `source_id`
/// names: every entry but that id, at or above `threshold`, by falling
/// score, at most `limit` of them.
pub fn find_similar_mashes(
    source_id: &str,
    corpus: &Vec<ScoredItem>,
    limit: usize,
    threshold: i64,
) -> (r: Vec<SimilarPair>)
    ensures
        r.len() == corpus_ranking(corpus@, source_id@, limit, threshold).len(),
        forall|i: int|
            0 <= i < r.len() ==> {
                let h = corpus_ranking(corpus@, source_id@, limit, threshold)[i];
                &&& (#[trigger] r[i]).source_id@ == source_id@
                &&& r[i].target_id@ == corpus[h.0 as int].id@
                &&& r[i].similarity == h.1
            },
        r.len() <= limit,
        forall|i: int|
            0 <= i < r.len() ==> (#[trigger] r[i]).target_id@ != source_id@ && r[i].similarity
                >= threshold,
        forall|i: int, j: int| 0 <= i < j < r.len() ==> r[i].similarity >= r[j].similarity,
{
    let ghost exclude = source_id@;
    let mut kept: Vec<Hit> = Vec::new();
    let mut i: usize = 0;
    while i < corpus.len()
        invariant
            i <= corpus.len(),
            exclude == source_id@,
            kept@ == kept_hits(corpus@.take(i as int), exclude, threshold),
        decreases corpus.len() - i,
    {
        proof {
            assert(corpus@.take(i as int + 1).drop_last() =~= corpus@.take(i as int));
            let c1 = corpus@.take(i as int + 1);
            assert(c1[i as int] == corpus@[i as int]);
            assert(((c1.len() - 1) as usize) == i);
            assert(kept_hits(c1, exclude, threshold) == if corpus[i as int].id@ != exclude
                && corpus[i as int].score >= threshold {
                kept@.push((i, corpus[i as int].score))
            } else {
                kept@
            });
        }
        if corpus[i].score >= threshold && !same_text(corpus[i].id.as_str(), source_id) {
            kept.push((i, corpus[i].score));
        }
        i = i + 1;
    }
    assert(corpus@.take(corpus.len() as int) =~= corpus@);
    let mut ranked = rank_desc(&kept);
    proof {
        lemma_sort_props(kept@);
        lemma_kept_hits(corpus@, exclude, threshold);
    }
    if limit < ranked.len() {
        ranked.truncate(limit);
    }
    let ghost ranking = corpus_ranking(corpus@, exclude, limit, threshold);
    assert(ranked@ =~= ranking);
    let mut out: Vec<SimilarPair> = Vec::new();
    let mut j: usize = 0;
    while j < ranked.len()
        invariant
            j <= ranked.len(),
            exclude == source_id@,
            ranked@ == ranking,
            ranking == corpus_ranking(corpus@, exclude, limit, threshold),
            kept@ == kept_hits(corpus@, exclude, threshold),
            ranking.len() <= sort_desc(kept@).len(),
            forall|q: int| 0 <= q < ranking.len() ==> ranking[q] == sort_desc(kept@)[q],
            forall|q: int| 0 <= q < kept@.len() ==> #[trigger] kept@.contains(sort_desc(kept@)[q]),
            sort_desc(kept@).len() == kept@.len(),
            forall|q: int|
                0 <= q < kept@.len() ==> {
                    let h = #[trigger] kept@[q];
                    &&& 0 <= h.0 < corpus.len()
                    &&& corpus[h.0 as int].id@ != exclude
                    &&& h.1 == corpus[h.0 as int].score
                    &&& h.1 >= threshold
                },
            out.len() == j,
            forall|q: int|
                0 <= q < j ==> {
                    let h = ranking[q];
                    &&& (#[trigger] out[q]).source_id@ == exclude
                    &&& out[q].target_id@ == corpus[h.0 as int].id@
                    &&& out[q].similarity == h.1
                },
        decreases ranked.len() - j,
    {
        let h = ranked[j];
        proof {
            assert(kept@.contains(sort_desc(kept@)[j as int]));
        }
        out.push(
            SimilarPair {
                source_id: String::from_str(source_id),
                target_id: copy_string(&corpus[h.0].id),
                similarity: h.1,
            },
        );
        j = j + 1;
    }
    proof {
        assert forall|q: int| 0 <= q < out.len() implies (#[trigger] out[q]).target_id@ != exclude
            && out[q].similarity >= threshold by {
            assert(kept@.contains(sort_desc(kept@)[q]));
        }
        assert(is_desc(sort_desc(kept@)));
    }
    out
}

/// The similarity of positions `a` and `b` of a batch, read from the upper
/// triangle of the score matrix.
pub open spec fn pair_score(scores: Seq<Vec<i64>>, a: int, b: int) -> i64 {
    if a < b {
        scores[a]@[b]
    } else {
        scores[b]@[a]
    }
}

/// The neighbours of position `s` among positions below `m`, in position
/// order: every other position at or above the threshold.
pub open spec fn neighbours(scores: Seq<Vec<i64>>, s: int, m: int, threshold: i64) -> Seq<Hit>
    decreases m,
{
    if m <= 0 {
        Seq::empty()
    } else {
        let prev = neighbours(scores, s, m - 1, threshold);
        let t = m - 1;
        if t != s && pair_score(scores, s, t) >= threshold {
            prev.push((t as usize, pair_score(scores, s, t)))
        } else {
            prev
        }
    }
}

/// The neighbours that position `s` keeps: its best `limit`, by falling
/// score, equal scores in position order.
pub open spec fn top_neighbours(scores: Seq<Vec<i64>>, s: int, threshold: i64, limit: usize) -> Seq<Hit> {
    let ss = sort_desc(neighbours(scores, s, scores.len() as int, threshold));
    ss.take(min_len(limit, ss.len()))
}

/// Whether position `s` keeps position `t` among its neighbours.
pub open spec fn keeps(scores: Seq<Vec<i64>>, s: int, t: int, threshold: i64, limit: usize) -> bool {
    exists|q: int|
        0 <= q < top_neighbours(scores, s, threshold, limit).len() && #[trigger] top_neighbours(
            scores,
            s,
            threshold,
            limit,
        )[q].0 == t
}

pub open spec fn square(scores: Seq<Vec<i64>>, n: int) -> bool {
    scores.len() == n && forall|i: int| 0 <= i < n ==> #[trigger] scores[i]@.len() == n
}

proof fn lemma_neighbours(scores: Seq<Vec<i64>>, s: int, m: int, threshold: i64)
    requires
        m <= usize::MAX,
    ensures
        forall|q: int|
            0 <= q < neighbours(scores, s, m, threshold).len() ==> {
                let h = #[trigger] neighbours(scores, s, m, threshold)[q];
                &&& 0 <= h.0 < m
                &&& h.0 != s
                &&& h.1 == pair_score(scores, s, h.0 as int)
                &&& h.1 >= threshold
            },
    decreases m,
{
    if m > 0 {
        lemma_neighbours(scores, s, m - 1, threshold);
        let prev = neighbours(scores, s, m - 1, threshold);
        let r = neighbours(scores, s, m, threshold);
        assert forall|q: int| 0 <= q < r.len() implies {
            let h = #[trigger] r[q];
            &&& 0 <= h.0 < m
            &&& h.0 != s
            &&& h.1 == pair_score(scores, s, h.0 as int)
            &&& h.1 >= threshold
        } by {
            if q < prev.len() {
                assert(r[q] == prev[q]);
            }
        }
    }
}

proof fn lemma_top_neighbours(scores: Seq<Vec<i64>>, s: int, threshold: i64, limit: usize)
    requires
        scores.len() <= usize::MAX,
    ensures
        forall|q: int|
            0 <= q < top_neighbours(scores, s, threshold, limit).len() ==> {
                let h = #[trigger] top_neighbours(scores, s, threshold, limit)[q];
                &&& 0 <= h.0 < scores.len()
                &&& h.0 != s
                &&& h.1 == pair_score(scores, s, h.0 as int)
            },
{
    let nb = neighbours(scores, s, scores.len() as int, threshold);
    lemma_neighbours(scores, s, scores.len() as int, threshold);
    lemma_sort_props(nb);
    let top = top_neighbours(scores, s, threshold, limit);
    assert forall|q: int| 0 <= q < top.len() implies {
        let h = #[trigger] top[q];
        &&& 0 <= h.0 < scores.len()
        &&& h.0 != s
        &&& h.1 == pair_score(scores, s, h.0 as int)
    } by {
        assert(top[q] == sort_desc(nb)[q]);
        assert(nb.contains(sort_desc(nb)[q]));
    }
}

fn contains_pair(seen: &Vec<(usize, usize)>, p: (usize, usize)) -> (r: bool)
    ensures
        r == seen@.contains(p),
{
    let mut i: usize = 0;
    while i < seen.len()
        invariant
            i <= seen.len(),
            forall|k: int| 0 <= k < i ==> seen@[k] != p,
        decreases seen.len() - i,
    {
        if seen[i].0 == p.0 && seen[i].1 == p.1 {
            assert(seen@[i as int] == p);
            return true;
        }
        i = i + 1;
    }
    false
}

/// The neighbours of position `s`, as `neighbours` states them.
fn batch_neighbours(scores: &Vec<Vec<i64>>, s: usize, threshold: i64) -> (r: Vec<Hit>)
    requires
        square(scores@, scores.len() as int),
        s < scores.len(),
    ensures
        r@ == neighbours(scores@, s as int, scores.len() as int, threshold),
{
    let n = scores.len();
    let mut r: Vec<Hit> = Vec::new();
    let mut t: usize = 0;
    while t < n
        invariant
            t <= n == scores.len(),
            square(scores@, n as int),
            s < n,
            r@ == neighbours(scores@, s as int, t as int, threshold),
        decreases n - t,
    {
        if t != s {
            let sc = if s < t {
                scores[s][t]
            } else {
                scores[t][s]
            };
            if sc >= threshold {
                r.push((t, sc));
            }
        }
        t = t + 1;
    }
    r
}

/// The unordered pair of positions `s` and `t`, lower position first.
pub open spec fn ordered(s: int, t: int) -> (usize, usize) {
    if s < t {
        (s as usize, t as usize)
    } else {
        (t as usize, s as usize)
    }
}

/// What the merged list holds so far: each entry names a pair of positions
/// that one of its two items keeps, with the pair's score, and no pair twice.
spec fn merge_inv(
    ids: Seq<String>,
    scores: Seq<Vec<i64>>,
    threshold: i64,
    limit: usize,
    out: Seq<SimilarPair>,
    seen: Seq<(usize, usize)>,
) -> bool {
    &&& out.len() == seen.len()
    &&& forall|k: int|
        0 <= k < seen.len() ==> {
            let p = #[trigger] seen[k];
            &&& p.0 < p.1 < ids.len()
            &&& out[k].source_id@ == ids[p.0 as int]@
            &&& out[k].target_id@ == ids[p.1 as int]@
            &&& out[k].similarity == pair_score(scores, p.0 as int, p.1 as int)
            &&& (keeps(scores, p.0 as int, p.1 as int, threshold, limit) || keeps(
                scores,
                p.1 as int,
                p.0 as int,
                threshold,
                limit,
            ))
        }
    &&& forall|k1: int, k2: int| 0 <= k1 < k2 < seen.len() ==> seen[k1] != seen[k2]
}

/// Every neighbour kept by a position below `s`, and the first `q` kept by
/// position `s`, has its pair in `seen`.
spec fn covered(
    scores: Seq<Vec<i64>>,
    threshold: i64,
    limit: usize,
    seen: Seq<(usize, usize)>,
    s: int,
    q: int,
) -> bool {
    forall|s2: int, q2: int|
        ((0 <= s2 < s && 0 <= q2 < top_neighbours(scores, s2, threshold, limit).len()) || (s2 == s
            && 0 <= q2 < q)) ==> seen.contains(
            ordered(s2, (#[trigger] top_neighbours(scores, s2, threshold, limit)[q2]).0 as int),
        )
}

proof fn lemma_covered_grows(
    scores: Seq<Vec<i64>>,
    threshold: i64,
    limit: usize,
    seen: Seq<(usize, usize)>,
    s: int,
    q: int,
    p: (usize, usize),
)
    requires
        covered(scores, threshold, limit, seen, s, q),
    ensures
        covered(scores, threshold, limit, seen.push(p), s, q),
{
    let seen2 = seen.push(p);
    assert forall|s2: int, q2: int|
        ((0 <= s2 < s && 0 <= q2 < top_neighbours(scores, s2, threshold, limit).len()) || (s2 == s
            && 0 <= q2 < q)) implies seen2.contains(
        ordered(s2, (#[trigger] top_neighbours(scores, s2, threshold, limit)[q2]).0 as int),
    ) by {
        let x = ordered(s2, top_neighbours(scores, s2, threshold, limit)[q2].0 as int);
        assert(seen.contains(x));
        let k = choose|k: int| 0 <= k < seen.len() && seen[k] == x;
        assert(seen2[k] == x);
    }
}

/// Adds the pairs of position `s` with the neighbours it keeps.
fn merge_neighbours(
    ids: &Vec<String>,
    scores: &Vec<Vec<i64>>,
    s: usize,
    top: &Vec<Hit>,
    threshold: i64,
    limit: usize,
    out: &mut Vec<SimilarPair>,
    seen: &mut Vec<(usize, usize)>,
)
    requires
        square(scores@, ids.len() as int),
        s < ids.len(),
        top@ == top_neighbours(scores@, s as int, threshold, limit),
        merge_inv(ids@, scores@, threshold, limit, old(out)@, old(seen)@),
        covered(scores@, threshold, limit, old(seen)@, s as int, 0),
    ensures
        merge_inv(ids@, scores@, threshold, limit, final(out)@, final(seen)@),
        covered(scores@, threshold, limit, final(seen)@, s as int + 1, 0),
{
    let ghost tn = top@;
    proof {
        lemma_top_neighbours(scores@, s as int, threshold, limit);
    }
    let mut q: usize = 0;
    while q < top.len()
        invariant
            square(scores@, ids.len() as int),
            s < ids.len(),
            top@ == tn,
            tn == top_neighbours(scores@, s as int, threshold, limit),
            forall|q2: int|
                0 <= q2 < tn.len() ==> {
                    let h = #[trigger] tn[q2];
                    &&& 0 <= h.0 < ids.len()
                    &&& h.0 != s
                    &&& h.1 == pair_score(scores@, s as int, h.0 as int)
                },
            q <= top.len(),
            merge_inv(ids@, scores@, threshold, limit, out@, seen@),
            covered(scores@, threshold, limit, seen@, s as int, q as int),
        decreases top.len() - q,
    {
        let h = top[q];
        let t = h.0;
        let (a, b) = if s < t {
            (s, t)
        } else {
            (t, s)
        };
        proof {
            assert(tn[q as int] == h);
            if s < t {
                assert(keeps(scores@, a as int, b as int, threshold, limit));
            } else {
                assert(keeps(scores@, b as int, a as int, threshold, limit));
            }
        }
        if !contains_pair(seen, (a, b)) {
            let ghost seen0 = seen@;
            let ghost out0 = out@;
            out.push(
                SimilarPair {
                    source_id: copy_string(&ids[a]),
                    target_id: copy_string(&ids[b]),
                    similarity: h.1,
                },
            );
            seen.push((a, b));
            proof {
                lemma_covered_grows(scores@, threshold, limit, seen0, s as int, q as int, (a, b));
                assert(seen@ == seen0.push((a, b)));
                assert forall|k: int| 0 <= k < seen@.len() implies {
                    let p = #[trigger] seen@[k];
                    &&& p.0 < p.1 < ids.len()
                    &&& out@[k].source_id@ == ids[p.0 as int]@
                    &&& out@[k].target_id@ == ids[p.1 as int]@
                    &&& out@[k].similarity == pair_score(scores@, p.0 as int, p.1 as int)
                    &&& (keeps(scores@, p.0 as int, p.1 as int, threshold, limit) || keeps(
                        scores@,
                        p.1 as int,
                        p.0 as int,
                        threshold,
                        limit,
                    ))
                } by {
                    if k < seen0.len() {
                        assert(seen@[k] == seen0[k]);
                        assert(out@[k] == out0[k]);
                    }
                }
                assert forall|k1: int, k2: int| 0 <= k1 < k2 < seen@.len() implies seen@[k1]
                    != seen@[k2] by {
                    if k2 == seen0.len() {
                        assert(seen@[k1] == seen0[k1]);
                        assert(seen0.contains(seen0[k1]));
                    }
                }
                assert(seen@.contains(ordered(s as int, tn[q as int].0 as int))) by {
                    assert(seen@[seen0.len() as int] == (a, b));
                }
            }
        }
        q = q + 1;
    }
}

/// Matches the items of a batch against each other: each item keeps its own
/// best `limit` neighbours at or above `threshold`, and the kept pairs are
/// merged into one list in which each unordered pair stands once, earlier
/// position first. `scores[a][b]`, for `a < b`, is the similarity of items
/// `a` and `b`.
pub fn find_similar_in_batch(
    ids: &Vec<String>,
    scores: &Vec<Vec<i64>>,
    threshold: i64,
    limit: usize,
) -> (r: Vec<SimilarPair>)
    requires
        square(scores@, ids.len() as int),
    ensures
        forall|k: int|
            0 <= k < r.len() ==> justified_pair(ids@, scores@, threshold, limit, #[trigger] r@[k]),
        forall|s: int, t: int|
            0 <= s < ids.len() && #[trigger] keeps(scores@, s, t, threshold, limit) ==> exists|
                k: int,
            |
                0 <= k < r.len() && ((#[trigger] r@[k]).source_id@ == ids@[s]@ && r@[k].target_id@
                    == ids@[t]@ || r@[k].source_id@ == ids@[t]@ && r@[k].target_id@ == ids@[s]@),
        (forall|i: int, j: int| 0 <= i < j < ids.len() ==> ids@[i]@ != ids@[j]@) ==> forall|
            k1: int,
            k2: int,
        |
            0 <= k1 < k2 < r.len() ==> !((#[trigger] r@[k1]).source_id@ == (#[trigger] r@[k2]).source_id@
                && r@[k1].target_id@ == r@[k2].target_id@) && !(r@[k1].source_id@ == r@[k2].target_id@
                && r@[k1].target_id@ == r@[k2].source_id@),
{
    let n = ids.len();
    let mut out: Vec<SimilarPair> = Vec::new();
    let mut seen: Vec<(usize, usize)> = Vec::new();
    let mut s: usize = 0;
    while s < n
        invariant
            s <= n == ids.len(),
            square(scores@, n as int),
            merge_inv(ids@, scores@, threshold, limit, out@, seen@),
            covered(scores@, threshold, limit, seen@, s as int, 0),
        decreases n - s,
    {
        let neigh = batch_neighbours(scores, s, threshold);
        let mut top = rank_desc(&neigh);
        if limit < top.len() {
            top.truncate(limit);
        }
        assert(top@ =~= top_neighbours(scores@, s as int, threshold, limit));
        merge_neighbours(ids, scores, s, &top, threshold, limit, &mut out, &mut seen);
        s = s + 1;
    }
    proof {
        lemma_merged_justified(ids@, scores@, threshold, limit, out@, seen@);
        lemma_merged_complete(ids@, scores@, threshold, limit, out@, seen@);
        if forall|i: int, j: int| 0 <= i < j < ids.len() ==> ids[i]@ != ids[j]@ {
            lemma_merged_unique(ids@, scores@, threshold, limit, out@, seen@);
        }
    }
    out
}

/// Whether `x` names two positions `a < b` of the batch, with their score,
/// one of which keeps the other.
pub open spec fn justified_pair(
    ids: Seq<String>,
    scores: Seq<Vec<i64>>,
    threshold: i64,
    limit: usize,
    x: SimilarPair,
) -> bool {
    exists|a: int, b: int|
        #![trigger ids[a], ids[b]]
        {
            &&& 0 <= a < b < ids.len()
            &&& x.source_id@ == ids[a]@
            &&& x.target_id@ == ids[b]@
            &&& x.similarity == pair_score(scores, a, b)
            &&& (keeps(scores, a, b, threshold, limit) || keeps(scores, b, a, threshold, limit))
        }
}

proof fn lemma_merged_justified(
    ids: Seq<String>,
    scores: Seq<Vec<i64>>,
    threshold: i64,
    limit: usize,
    out: Seq<SimilarPair>,
    seen: Seq<(usize, usize)>,
)
    requires
        merge_inv(ids, scores, threshold, limit, out, seen),
    ensures
        forall|k: int|
            0 <= k < out.len() ==> justified_pair(ids, scores, threshold, limit, #[trigger] out[k]),
{
    assert forall|k: int| 0 <= k < out.len() implies justified_pair(
        ids,
        scores,
        threshold,
        limit,
        #[trigger] out[k],
    ) by {
        let p = seen[k];
        let a = p.0 as int;
        let b = p.1 as int;
        assert(out[k].source_id@ == ids[a]@ && out[k].target_id@ == ids[b]@);
    }
}

proof fn lemma_merged_complete(
    ids: Seq<String>,
    scores: Seq<Vec<i64>>,
    threshold: i64,
    limit: usize,
    out: Seq<SimilarPair>,
    seen: Seq<(usize, usize)>,
)
    requires
        ids.len() <= usize::MAX,
        square(scores, ids.len() as int),
        merge_inv(ids, scores, threshold, limit, out, seen),
        covered(scores, threshold, limit, seen, ids.len() as int, 0),
    ensures
        forall|s: int, t: int|
            0 <= s < ids.len() && #[trigger] keeps(scores, s, t, threshold, limit) ==> exists|
                k: int,
            |
                0 <= k < out.len() && ((#[trigger] out[k]).source_id@ == ids[s]@ && out[k].target_id@
                    == ids[t]@ || out[k].source_id@ == ids[t]@ && out[k].target_id@ == ids[s]@),
{
    assert forall|s2: int, t: int|
        0 <= s2 < ids.len() && #[trigger] keeps(scores, s2, t, threshold, limit) implies exists|
            k: int,
        |
            0 <= k < out.len() && ((#[trigger] out[k]).source_id@ == ids[s2]@ && out[k].target_id@
                == ids[t]@ || out[k].source_id@ == ids[t]@ && out[k].target_id@ == ids[s2]@) by {
        let tn2 = top_neighbours(scores, s2, threshold, limit);
        let q = choose|q: int| 0 <= q < tn2.len() && #[trigger] tn2[q].0 == t;
        lemma_top_neighbours(scores, s2, threshold, limit);
        let p = ordered(s2, t);
        assert(seen.contains(p));
        let k = choose|k: int| 0 <= k < seen.len() && seen[k] == p;
        assert(out[k].source_id@ == ids[p.0 as int]@);
    }
}

proof fn lemma_merged_unique(
    ids: Seq<String>,
    scores: Seq<Vec<i64>>,
    threshold: i64,
    limit: usize,
    out: Seq<SimilarPair>,
    seen: Seq<(usize, usize)>,
)
    requires
        merge_inv(ids, scores, threshold, limit, out, seen),
        forall|i: int, j: int| 0 <= i < j < ids.len() ==> ids[i]@ != ids[j]@,
    ensures
        forall|k1: int, k2: int|
            0 <= k1 < k2 < out.len() ==> !((#[trigger] out[k1]).source_id@ == (#[trigger] out[k2]).source_id@
                && out[k1].target_id@ == out[k2].target_id@) && !(out[k1].source_id@ == out[k2].target_id@
                && out[k1].target_id@ == out[k2].source_id@),
{
    assert forall|k1: int, k2: int| 0 <= k1 < k2 < out.len() implies !((
    #[trigger] out[k1]).source_id@ == (#[trigger] out[k2]).source_id@ && out[k1].target_id@
        == out[k2].target_id@) && !(out[k1].source_id@ == out[k2].target_id@
        && out[k1].target_id@ == out[k2].source_id@) by {
        let first = seen[k1];
        let second = seen[k2];
        assert(first != second);
        assert(first.0 < first.1 < ids.len());
        assert(second.0 < second.1 < ids.len());
        assert(out[k1].source_id@ == ids[first.0 as int]@);
        assert(out[k2].source_id@ == ids[second.0 as int]@);
    }
}

} // verus!
