use vstd::prelude::*;

use crate::text::{copy_string, same_text};

verus! {

/// Number of candidate pairs sent to the classifier in one call.
pub const RELATION_BATCH_SIZE: usize = 5;

/// The largest confidence, 1.0, in parts per million.
pub const MAX_CONFIDENCE: i64 = 1_000_000;

/// A pair of similar items, with their summaries, to be classified.
#[derive(Debug)]
pub struct RelationCandidate {
    pub source_id: String,
    pub source_summary: String,
    pub target_id: String,
    pub target_summary: String,
}

/// One relation as the classifier proposed it; confidence in parts per million.
#[derive(Debug)]
pub struct ProposedRelation {
    pub source_id: String,
    pub target_id: String,
    pub relation: Option<String>,
    pub confidence: i64,
}

/// A relation that passed validation; confidence in parts per million.
#[derive(Debug)]
pub struct ExtractedRelation {
    pub source_id: String,
    pub target_id: String,
    pub relation: String,
    pub confidence: i64,
}

pub struct CandidateView {
    pub source_id: Seq<char>,
    pub source_summary: Seq<char>,
    pub target_id: Seq<char>,
    pub target_summary: Seq<char>,
}

pub struct RelationView {
    pub source_id: Seq<char>,
    pub target_id: Seq<char>,
    pub relation: Seq<char>,
    pub confidence: i64,
}

impl View for RelationCandidate {
    type V = CandidateView;

    open spec fn view(&self) -> CandidateView {
        CandidateView {
            source_id: self.source_id@,
            source_summary: self.source_summary@,
            target_id: self.target_id@,
            target_summary: self.target_summary@,
        }
    }
}

impl View for ExtractedRelation {
    type V = RelationView;

    open spec fn view(&self) -> RelationView {
        RelationView {
            source_id: self.source_id@,
            target_id: self.target_id@,
            relation: self.relation@,
            confidence: self.confidence,
        }
    }
}

impl RelationCandidate {
    pub fn copy(&self) -> (r: RelationCandidate)
        ensures
            r@ == self@,
    {
        RelationCandidate {
            source_id: copy_string(&self.source_id),
            source_summary: copy_string(&self.source_summary),
            target_id: copy_string(&self.target_id),
            target_summary: copy_string(&self.target_summary),
        }
    }
}

/// The relation labels an edge may carry.
pub open spec fn is_known_label(l: Seq<char>) -> bool {
    l == "RELATED_TO"@ || l == "SUPPORTS"@ || l == "CONFLICTS_WITH"@
}

pub fn is_known_relation(l: &str) -> (r: bool)
    ensures
        r == is_known_label(l@),
{
    same_text(l, "RELATED_TO") || same_text(l, "SUPPORTS") || same_text(l, "CONFLICTS_WITH")
}

/// Whether `id` is one of the two ends of some candidate of the batch.
pub open spec fn in_batch(batch: Seq<RelationCandidate>, id: Seq<char>) -> bool {
    exists|k: int|
        0 <= k < batch.len() && ((#[trigger] batch[k]).source_id@ == id || batch[k].target_id@
            == id)
}

fn batch_has(batch: &Vec<RelationCandidate>, id: &String) -> (r: bool)
    ensures
        r == in_batch(batch@, id@),
{
    let mut i: usize = 0;
    while i < batch.len()
        invariant
            i <= batch.len(),
            forall|k: int|
                0 <= k < i ==> (#[trigger] batch@[k]).source_id@ != id@ && batch@[k].target_id@
                    != id@,
        decreases batch.len() - i,
    {
        if batch[i].source_id == *id || batch[i].target_id == *id {
            return true;
        }
        i = i + 1;
    }
    false
}

/// Whether the classifier's proposal is kept: a known label, a positive
/// confidence no greater than 1.0, and both ends among the ids of the batch it answered.
pub open spec fn accepted(batch: Seq<RelationCandidate>, p: ProposedRelation) -> bool {
    &&& p.relation matches Some(l) && is_known_label(l@)
    &&& 0 < p.confidence <= MAX_CONFIDENCE
    &&& in_batch(batch, p.source_id@)
    &&& in_batch(batch, p.target_id@)
}

/// The accepted proposals, in the classifier's order.
pub open spec fn accepted_relations(batch: Seq<RelationCandidate>, proposed: Seq<ProposedRelation>) -> Seq<
    RelationView,
>
    decreases proposed.len(),
{
    if proposed.len() == 0 {
        Seq::empty()
    } else {
        let prev = accepted_relations(batch, proposed.drop_last());
        let p = proposed.last();
        if accepted(batch, p) {
            prev.push(
                RelationView {
                    source_id: p.source_id@,
                    target_id: p.target_id@,
                    relation: p.relation.unwrap()@,
                    confidence: p.confidence,
                },
            )
        } else {
            prev
        }
    }
}

/// Keeps the classifier's proposals for a batch that can become edges.
pub fn validate_relations(batch: &Vec<RelationCandidate>, proposed: &Vec<ProposedRelation>) -> (r: Vec<
    ExtractedRelation,
>)
    ensures
        r@.map_values(|x: ExtractedRelation| x@) == accepted_relations(batch@, proposed@),
{
    let mut out: Vec<ExtractedRelation> = Vec::new();
    let mut i: usize = 0;
    while i < proposed.len()
        invariant
            i <= proposed.len(),
            out@.map_values(|x: ExtractedRelation| x@) == accepted_relations(
                batch@,
                proposed@.take(i as int),
            ),
        decreases proposed.len() - i,
    {
        let p = &proposed[i];
        proof {
            assert(proposed@.take(i as int + 1).drop_last() =~= proposed@.take(i as int));
            assert(proposed@.take(i as int + 1).last() == proposed@[i as int]);
        }
        let keep = match &p.relation {
            Some(l) => is_known_relation(l.as_str()) && p.confidence > 0 && p.confidence <= MAX_CONFIDENCE
                && batch_has(
                batch,
                &p.source_id,
            ) && batch_has(batch, &p.target_id),
            None => false,
        };
        if keep {
            let label = match &p.relation {
                Some(l) => copy_string(l),
                None => String::new(),
            };
            let ghost before = out@;
            out.push(
                ExtractedRelation {
                    source_id: copy_string(&p.source_id),
                    target_id: copy_string(&p.target_id),
                    relation: label,
                    confidence: p.confidence,
                },
            );
            proof {
                assert(out@.map_values(|x: ExtractedRelation| x@) =~= before.map_values(
                    |x: ExtractedRelation| x@,
                ).push(out@[out@.len() - 1]@));
            }
        }
        i = i + 1;
    }
    assert(proposed@.take(proposed.len() as int) =~= proposed@);
    out
}

pub open spec fn batch_len(n: int, b: int) -> int {
    if n - b * 5 < 5 {
        n - b * 5
    } else {
        5
    }
}

/// Splits the candidates into consecutive batches of five, the last one
/// holding what remains.
pub fn candidate_batches(cands: &Vec<RelationCandidate>) -> (r: Vec<Vec<RelationCandidate>>)
    ensures
        r.len() == (cands.len() + 4) / 5,
        forall|b: int|
            0 <= b < r.len() ==> (#[trigger] r[b]).len() == batch_len(cands.len() as int, b),
        forall|b: int, k: int|
            0 <= b < r.len() && 0 <= k < r[b].len() ==> (#[trigger] r[b][k])@ == cands[5 * b + k]@,
{
    let n = cands.len();
    let mut out: Vec<Vec<RelationCandidate>> = Vec::new();
    let mut start: usize = 0;
    while start < n
        invariant
            start <= n == cands.len(),
            start < n ==> start == 5 * out.len(),
            out.len() == (start + 4) / 5,
            forall|b: int|
                0 <= b < out.len() ==> (#[trigger] out[b]).len() == batch_len(n as int, b),
            forall|b: int, k: int|
                0 <= b < out.len() && 0 <= k < out[b].len() ==> (#[trigger] out[b][k])@ == cands[5
                    * b + k]@,
        decreases n - start,
    {
        let end = if n - start < RELATION_BATCH_SIZE {
            n
        } else {
            start + RELATION_BATCH_SIZE
        };
        let mut batch: Vec<RelationCandidate> = Vec::new();
        let mut i: usize = start;
        while i < end
            invariant
                start <= i <= end <= n == cands.len(),
                batch.len() == i - start,
                forall|k: int| 0 <= k < batch.len() ==> (#[trigger] batch[k])@ == cands[start + k]@,
            decreases end - i,
        {
            batch.push(cands[i].copy());
            i = i + 1;
        }
        let ghost before = out@;
        out.push(batch);
        proof {
            assert forall|b: int, k: int|
                0 <= b < out.len() && 0 <= k < out[b].len() implies (#[trigger] out[b][k])@
                == cands[5 * b + k]@ by {
                if b < before.len() {
                    assert(out[b] == before[b]);
                } else {
                    assert(5 * b == start);
                }
            }
        }
        start = end;
    }
    out
}

} // verus!
