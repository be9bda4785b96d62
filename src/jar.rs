use vstd::prelude::*;

use crate::edges::{EdgeTable, EdgeView};
use crate::embedding::{find_setting, setting_value};
use crate::items::{Item, ItemView};
use crate::relations::{in_batch, CandidateView, RelationCandidate};
use crate::similarity::SimilarPair;
use crate::status::Status;
use crate::text::{contains_text, copy_string, holds_text};

verus! {

pub struct PairView {
    pub source_id: Seq<char>,
    pub target_id: Seq<char>,
    pub similarity: i64,
}

impl View for SimilarPair {
    type V = PairView;

    open spec fn view(&self) -> PairView {
        PairView { source_id: self.source_id@, target_id: self.target_id@, similarity: self.similarity }
    }
}

pub open spec fn pair_views(s: Seq<SimilarPair>) -> Seq<PairView> {
    s.map_values(|p: SimilarPair| p@)
}

/// Whether two pairs join the same two items, in either direction.
pub open spec fn same_unordered(x: PairView, y: PairView) -> bool {
    (x.source_id == y.source_id && x.target_id == y.target_id) || (x.source_id == y.target_id
        && x.target_id == y.source_id)
}

pub open spec fn holds_unordered(s: Seq<PairView>, x: PairView) -> bool {
    exists|k: int| 0 <= k < s.len() && same_unordered(#[trigger] s[k], x)
}

/// The pairs in order, each unordered pair kept where it first stands.
pub open spec fn dedup_pairs(s: Seq<PairView>) -> Seq<PairView>
    decreases s.len(),
{
    if s.len() == 0 {
        Seq::empty()
    } else {
        let prev = dedup_pairs(s.drop_last());
        if holds_unordered(prev, s.last()) {
            prev
        } else {
            prev.push(s.last())
        }
    }
}

pub open spec fn no_unordered_duplicates(s: Seq<PairView>) -> bool {
    forall|i: int, j: int| 0 <= i < j < s.len() ==> !same_unordered(#[trigger] s[i], #[trigger] s[j])
}

proof fn lemma_dedup_unique(s: Seq<PairView>)
    ensures
        no_unordered_duplicates(dedup_pairs(s)),
    decreases s.len(),
{
    if s.len() > 0 {
        lemma_dedup_unique(s.drop_last());
        let prev = dedup_pairs(s.drop_last());
        if !holds_unordered(prev, s.last()) {
            let r = prev.push(s.last());
            assert forall|i: int, j: int| 0 <= i < j < r.len() implies !same_unordered(
                #[trigger] r[i],
                #[trigger] r[j],
            ) by {
                if j == r.len() - 1 {
                    assert(r[i] == prev[i]);
                    if same_unordered(r[i], r[j]) {
                        assert(same_unordered(prev[i], s.last()));
                    }
                } else {
                    assert(r[i] == prev[i] && r[j] == prev[j]);
                }
            }
        }
    }
}

fn copy_pair(p: &SimilarPair) -> (r: SimilarPair)
    ensures
        r@ == p@,
{
    SimilarPair {
        source_id: copy_string(&p.source_id),
        target_id: copy_string(&p.target_id),
        similarity: p.similarity,
    }
}

fn holds_pair(s: &Vec<SimilarPair>, x: &SimilarPair) -> (r: bool)
    ensures
        r == holds_unordered(pair_views(s@), x@),
{
    let ghost v = pair_views(s@);
    let mut i: usize = 0;
    while i < s.len()
        invariant
            i <= s.len(),
            v == pair_views(s@),
            forall|k: int| 0 <= k < i ==> !same_unordered(#[trigger] v[k], x@),
        decreases s.len() - i,
    {
        let y = &s[i];
        if (y.source_id == x.source_id && y.target_id == x.target_id) || (y.source_id
            == x.target_id && y.target_id == x.source_id) {
            assert(same_unordered(v[i as int], x@));
            return true;
        }
        i = i + 1;
    }
    false
}

/// Merges the pairs found against the settled corpus with those found
/// inside the batch: each unordered pair once, where it first stands.
pub fn merge_similar_pairs(first: &Vec<SimilarPair>, second: &Vec<SimilarPair>) -> (r: Vec<
    SimilarPair,
>)
    ensures
        pair_views(r@) == dedup_pairs(pair_views(first@) + pair_views(second@)),
        no_unordered_duplicates(pair_views(r@)),
{
    let ghost all = pair_views(first@) + pair_views(second@);
    let mut out: Vec<SimilarPair> = Vec::new();
    let mut i: usize = 0;
    while i < first.len()
        invariant
            i <= first.len(),
            all == pair_views(first@) + pair_views(second@),
            pair_views(out@) == dedup_pairs(all.take(i as int)),
        decreases first.len() - i,
    {
        let x = &first[i];
        proof {
            assert(all.take(i as int + 1).drop_last() =~= all.take(i as int));
            assert(all.take(i as int + 1).last() == x@);
        }
        if !holds_pair(&out, x) {
            let ghost before = out@;
            out.push(copy_pair(x));
            assert(pair_views(out@) =~= pair_views(before).push(x@));
        }
        i = i + 1;
    }
    let mut j: usize = 0;
    while j < second.len()
        invariant
            j <= second.len(),
            all == pair_views(first@) + pair_views(second@),
            pair_views(out@) == dedup_pairs(all.take(first.len() + j)),
        decreases second.len() - j,
    {
        let x = &second[j];
        let ghost m = first.len() + j;
        proof {
            assert(all.take(m + 1).drop_last() =~= all.take(m));
            assert(all.take(m + 1).last() == x@);
        }
        if !holds_pair(&out, x) {
            let ghost before = out@;
            out.push(copy_pair(x));
            assert(pair_views(out@) =~= pair_views(before).push(x@));
        }
        j = j + 1;
    }
    proof {
        assert(all.take(all.len() as int) =~= all);
        lemma_dedup_unique(all);
    }
    out
}

/// Whether some pair names `id` at either end.
pub open spec fn referenced(pairs: Seq<SimilarPair>, id: Seq<char>) -> bool {
    exists|k: int|
        0 <= k < pairs.len() && ((#[trigger] pairs[k]).source_id@ == id || pairs[k].target_id@ == id)
}

/// The ids that the pairs name and whose summary is not known yet, each once.
pub fn missing_summary_ids(pairs: &Vec<SimilarPair>, known: &Vec<(String, String)>) -> (r: Vec<
    String,
>)
    ensures
        forall|k: int|
            0 <= k < r.len() ==> referenced(pairs@, (#[trigger] r[k])@) && setting_value(
                known@,
                r[k]@,
            ) is None,
        forall|id: Seq<char>|
            referenced(pairs@, id) && setting_value(known@, id) is None ==> #[trigger] holds_text(
                r@,
                id,
            ),
        forall|i: int, j: int| 0 <= i < j < r.len() ==> (#[trigger] r[i])@ != (#[trigger] r[j])@,
{
    let mut out: Vec<String> = Vec::new();
    let mut i: usize = 0;
    while i < pairs.len()
        invariant
            i <= pairs.len(),
            forall|k: int|
                0 <= k < out.len() ==> referenced(pairs@, (#[trigger] out[k])@) && setting_value(
                    known@,
                    out[k]@,
                ) is None,
            forall|k: int|
                0 <= k < i ==> (setting_value(known@, (#[trigger] pairs[k]).source_id@) is None
                    ==> holds_text(out@, pairs[k].source_id@)) && (setting_value(
                    known@,
                    pairs[k].target_id@,
                ) is None ==> holds_text(out@, pairs[k].target_id@)),
            forall|a: int, b: int| 0 <= a < b < out.len() ==> (#[trigger] out[a])@ != (#[trigger] out[b])@,
        decreases pairs.len() - i,
    {
        let p = &pairs[i];
        assert(referenced(pairs@, p.source_id@));
        assert(referenced(pairs@, p.target_id@));
        if find_setting(known, p.source_id.as_str()).is_none() && !contains_text(&out, &p.source_id) {
            let ghost before = out@;
            out.push(copy_string(&p.source_id));
            proof {
                assert(out@[out.len() - 1]@ == p.source_id@);
                assert forall|id: Seq<char>| holds_text(before, id) implies holds_text(out@, id) by {
                    let k = choose|k: int| 0 <= k < before.len() && before[k]@ == id;
                    assert(out@[k] == before[k]);
                }
            }
        }
        assert(setting_value(known@, p.source_id@) is None ==> holds_text(out@, p.source_id@));
        if find_setting(known, p.target_id.as_str()).is_none() && !contains_text(&out, &p.target_id) {
            let ghost before = out@;
            out.push(copy_string(&p.target_id));
            proof {
                assert(out@[out.len() - 1]@ == p.target_id@);
                assert forall|id: Seq<char>| holds_text(before, id) implies holds_text(out@, id) by {
                    let k = choose|k: int| 0 <= k < before.len() && before[k]@ == id;
                    assert(out@[k] == before[k]);
                }
            }
        }
        proof {
            assert(setting_value(known@, p.source_id@) is None ==> holds_text(out@, p.source_id@));
            assert(setting_value(known@, p.target_id@) is None ==> holds_text(out@, p.target_id@));
        }
        i = i + 1;
    }
    proof {
        assert forall|id: Seq<char>|
            referenced(pairs@, id) && setting_value(known@, id) is None implies #[trigger] holds_text(
            out@,
            id,
        ) by {
            let k = choose|k: int|
                0 <= k < pairs.len() && ((#[trigger] pairs[k]).source_id@ == id || pairs[k].target_id@
                    == id);
            assert(pairs[k].source_id@ == id || pairs[k].target_id@ == id);
        }
    }
    out
}

/// The candidates built from the pairs whose two summaries are known, in
/// the pairs' order; a summary is the first one `known` gives for the id.
pub open spec fn candidates_of(pairs: Seq<SimilarPair>, known: Seq<(String, String)>) -> Seq<
    CandidateView,
>
    decreases pairs.len(),
{
    if pairs.len() == 0 {
        Seq::empty()
    } else {
        let prev = candidates_of(pairs.drop_last(), known);
        let p = pairs.last();
        match (setting_value(known, p.source_id@), setting_value(known, p.target_id@)) {
            (Some(ss), Some(ts)) => prev.push(
                CandidateView {
                    source_id: p.source_id@,
                    source_summary: ss,
                    target_id: p.target_id@,
                    target_summary: ts,
                },
            ),
            _ => prev,
        }
    }
}

/// Builds the candidates handed to the relationship classifier from the
/// similar pairs and the summaries known for their ids (id, summary).
pub fn build_candidates(pairs: &Vec<SimilarPair>, known: &Vec<(String, String)>) -> (r: Vec<
    RelationCandidate,
>)
    ensures
        r@.map_values(|c: RelationCandidate| c@) == candidates_of(pairs@, known@),
{
    let mut out: Vec<RelationCandidate> = Vec::new();
    let mut i: usize = 0;
    while i < pairs.len()
        invariant
            i <= pairs.len(),
            out@.map_values(|c: RelationCandidate| c@) == candidates_of(pairs@.take(i as int), known@),
        decreases pairs.len() - i,
    {
        let p = &pairs[i];
        proof {
            assert(pairs@.take(i as int + 1).drop_last() =~= pairs@.take(i as int));
            assert(pairs@.take(i as int + 1).last() == *p);
        }
        let ss = find_setting(known, p.source_id.as_str());
        let ts = find_setting(known, p.target_id.as_str());
        match (ss, ts) {
            (Some(ss), Some(ts)) => {
                let ghost before = out@;
                out.push(
                    RelationCandidate {
                        source_id: copy_string(&p.source_id),
                        source_summary: ss,
                        target_id: copy_string(&p.target_id),
                        target_summary: ts,
                    },
                );
                assert(out@.map_values(|c: RelationCandidate| c@) =~= before.map_values(
                    |c: RelationCandidate| c@,
                ).push(out@[out.len() - 1]@));
            },
            _ => {},
        }
        i = i + 1;
    }
    assert(pairs@.take(pairs.len() as int) =~= pairs@);
    out
}

/// Whether the backfill pass takes up the item: settled, with a vector, and
/// with no edge at all.
pub open spec fn is_isolated_item(it: ItemView, edges: Seq<EdgeView>) -> bool {
    &&& it.status == Status::Settled
    &&& it.embedding is Some
    &&& forall|k: int| 0 <= k < edges.len() ==> !(#[trigger] edges[k]).touches(it.id)
}

/// The positions of the items the backfill pass reconnects, in order.
pub open spec fn isolated_positions(items: Seq<Item>, edges: Seq<EdgeView>) -> Seq<usize>
    decreases items.len(),
{
    if items.len() == 0 {
        Seq::empty()
    } else {
        let prev = isolated_positions(items.drop_last(), edges);
        if is_isolated_item(items.last()@, edges) {
            prev.push((items.len() - 1) as usize)
        } else {
            prev
        }
    }
}

/// Finds the settled items with a vector and no edge.
pub fn isolated_items(items: &Vec<Item>, edges: &EdgeTable) -> (r: Vec<usize>)
    ensures
        r@ == isolated_positions(items@, edges@),
{
    let mut out: Vec<usize> = Vec::new();
    let mut i: usize = 0;
    while i < items.len()
        invariant
            i <= items.len(),
            out@ == isolated_positions(items@.take(i as int), edges@),
        decreases items.len() - i,
    {
        proof {
            assert(items@.take(i as int + 1).drop_last() =~= items@.take(i as int));
            assert(items@.take(i as int + 1).last() == items@[i as int]);
        }
        let it = &items[i];
        if it.status == Status::Settled && it.embedding.is_some() && edges.is_isolated(&it.id) {
            out.push(i);
        }
        i = i + 1;
    }
    assert(items@.take(items.len() as int) =~= items@);
    out
}

/// Whether some item of `targets` has the id `id`.
pub open spec fn is_target(targets: Seq<Item>, id: Seq<char>) -> bool {
    exists|k: int| 0 <= k < targets.len() && (#[trigger] targets[k]).id@ == id
}

fn has_target(targets: &Vec<Item>, id: &String) -> (r: bool)
    ensures
        r == is_target(targets@, id@),
{
    let mut i: usize = 0;
    while i < targets.len()
        invariant
            i <= targets.len(),
            forall|k: int| 0 <= k < i ==> (#[trigger] targets@[k]).id@ != id@,
        decreases targets.len() - i,
    {
        if targets[i].id == *id {
            assert(targets@[i as int].id@ == id@);
            return true;
        }
        i = i + 1;
    }
    false
}

/// After one classifier batch of a forced re-extraction: the ids of the
/// target items that this batch is the first to touch, which settle now.
/// `processed` gathers every id the batches have touched.
pub fn first_touched_targets(
    batch: &Vec<RelationCandidate>,
    targets: &Vec<Item>,
    processed: &mut Vec<String>,
) -> (r: Vec<String>)
    ensures
        forall|id: Seq<char>|
            #[trigger] holds_text(final(processed)@, id) <==> holds_text(old(processed)@, id)
                || in_batch(batch@, id),
        forall|id: Seq<char>|
            #[trigger] holds_text(r@, id) <==> in_batch(batch@, id) && is_target(targets@, id)
                && !holds_text(old(processed)@, id),
{
    let ghost start = processed@;
    let mut out: Vec<String> = Vec::new();
    let mut i: usize = 0;
    while i < batch.len()
        invariant
            i <= batch.len(),
            forall|id: Seq<char>|
                #[trigger] holds_text(processed@, id) <==> holds_text(start, id) || exists|k: int|
                    0 <= k < i && ((#[trigger] batch@[k]).source_id@ == id || batch@[k].target_id@ == id),
            forall|id: Seq<char>|
                #[trigger] holds_text(out@, id) <==> (exists|k: int|
                    0 <= k < i && ((#[trigger] batch@[k]).source_id@ == id || batch@[k].target_id@ == id))
                    && is_target(targets@, id) && !holds_text(start, id),
        decreases batch.len() - i,
    {
        let c = &batch[i];
        visit_id(&c.source_id, targets, processed, &mut out, Ghost(start));
        visit_id(&c.target_id, targets, processed, &mut out, Ghost(start));
        proof {
            assert forall|id: Seq<char>|
                #[trigger] holds_text(processed@, id) <==> holds_text(start, id) || exists|k: int|
                    0 <= k < i + 1 && ((#[trigger] batch@[k]).source_id@ == id || batch@[k].target_id@ == id) by {
                if exists|k: int|
                    0 <= k < i + 1 && ((#[trigger] batch@[k]).source_id@ == id || batch@[k].target_id@ == id) {
                    let k = choose|k: int|
                        0 <= k < i + 1 && ((#[trigger] batch@[k]).source_id@ == id || batch@[k].target_id@ == id);
                    if k < i {
                        assert(exists|k2: int|
                            0 <= k2 < i && ((#[trigger] batch@[k2]).source_id@ == id || batch@[k2].target_id@ == id));
                    }
                }
                if exists|k: int|
                    0 <= k < i && ((#[trigger] batch@[k]).source_id@ == id || batch@[k].target_id@ == id) {
                    let k = choose|k: int|
                        0 <= k < i && ((#[trigger] batch@[k]).source_id@ == id || batch@[k].target_id@ == id);
                    assert(0 <= k < i + 1);
                }
            }
            assert forall|id: Seq<char>|
                #[trigger] holds_text(out@, id) <==> (exists|k: int|
                    0 <= k < i + 1 && ((#[trigger] batch@[k]).source_id@ == id || batch@[k].target_id@ == id))
                    && is_target(targets@, id) && !holds_text(start, id) by {
                if exists|k: int|
                    0 <= k < i + 1 && ((#[trigger] batch@[k]).source_id@ == id || batch@[k].target_id@ == id) {
                    let k = choose|k: int|
                        0 <= k < i + 1 && ((#[trigger] batch@[k]).source_id@ == id || batch@[k].target_id@ == id);
                    if k < i {
                        assert(exists|k2: int|
                            0 <= k2 < i && ((#[trigger] batch@[k2]).source_id@ == id || batch@[k2].target_id@ == id));
                    }
                }
                if exists|k: int|
                    0 <= k < i && ((#[trigger] batch@[k]).source_id@ == id || batch@[k].target_id@ == id) {
                    let k = choose|k: int|
                        0 <= k < i && ((#[trigger] batch@[k]).source_id@ == id || batch@[k].target_id@ == id);
                    assert(0 <= k < i + 1);
                }
            }
        }
        i = i + 1;
    }
    out
}

/// Notes one id of a batch: it joins `processed`, and joins `out` too when
/// it is a target that no earlier batch or candidate touched.
fn visit_id(
    id: &String,
    targets: &Vec<Item>,
    processed: &mut Vec<String>,
    out: &mut Vec<String>,
    Ghost(start): Ghost<Seq<String>>,
)
    requires
        forall|x: Seq<char>| #[trigger] holds_text(old(out)@, x) ==> holds_text(old(processed)@, x)
            && is_target(targets@, x) && !holds_text(start, x),
        forall|x: Seq<char>| holds_text(start, x) ==> #[trigger] holds_text(old(processed)@, x),
    ensures
        forall|x: Seq<char>|
            #[trigger] holds_text(final(processed)@, x) <==> holds_text(old(processed)@, x) || x
                == id@,
        forall|x: Seq<char>|
            #[trigger] holds_text(final(out)@, x) <==> holds_text(old(out)@, x) || (x == id@
                && is_target(targets@, x) && !holds_text(old(processed)@, x)),
        forall|x: Seq<char>| #[trigger] holds_text(final(out)@, x) ==> holds_text(final(processed)@, x)
            && is_target(targets@, x) && !holds_text(start, x),
        forall|x: Seq<char>| holds_text(start, x) ==> #[trigger] holds_text(final(processed)@, x),
{
    if !contains_text(processed, id) {
        let ghost seen_before = processed@;
        let ghost o0 = out@;
        processed.push(copy_string(id));
        proof {
            lemma_holds_push(seen_before, processed@[seen_before.len() as int]);
        }
        if has_target(targets, id) {
            out.push(copy_string(id));
            proof {
                lemma_holds_push(o0, out@[o0.len() as int]);
            }
        }
    }
}

proof fn lemma_holds_push(s: Seq<String>, x: String)
    ensures
        forall|id: Seq<char>| #[trigger] holds_text(s.push(x), id) <==> holds_text(s, id) || id == x@,
{
    assert forall|id: Seq<char>| #[trigger] holds_text(s.push(x), id) <==> holds_text(s, id) || id == x@ by {
        if holds_text(s, id) {
            let k = choose|k: int| 0 <= k < s.len() && s[k]@ == id;
            assert(s.push(x)[k] == s[k]);
        }
        if id == x@ {
            assert(s.push(x)[s.len() as int] == x);
        }
        if holds_text(s.push(x), id) {
            let k = choose|k: int| 0 <= k < s.push(x).len() && s.push(x)[k]@ == id;
            if k < s.len() {
                assert(s.push(x)[k] == s[k]);
            }
        }
    }
}

} // verus!
