use vstd::prelude::*;

use crate::relations::{ExtractedRelation, RelationView};
use crate::text::{contains_text, copy_string, holds_text, same_text};

verus! {

/// Who made an edge. Edges made by a person are never removed by automated
/// re-extraction.
#[derive(Clone, Copy, Debug, PartialEq, Eq, Structural)]
pub enum EdgeOrigin {
    Human,
    Ai,
}

impl EdgeOrigin {
    pub open spec fn name(self) -> Seq<char> {
        match self {
            EdgeOrigin::Human => "human"@,
            EdgeOrigin::Ai => "ai"@,
        }
    }

    /// The stored word for this origin.
    pub fn as_str(&self) -> (r: &'static str)
        ensures
            r@ == self.name(),
    {
        match self {
            EdgeOrigin::Human => "human",
            EdgeOrigin::Ai => "ai",
        }
    }

    /// Reads a stored origin: `ai` is an inferred edge, any other word one
    /// that a person made.
    pub fn parse(s: &str) -> (r: EdgeOrigin)
        ensures
            r == EdgeOrigin::Ai <==> s@ == "ai"@,
    {
        if same_text(s, "ai") {
            EdgeOrigin::Ai
        } else {
            EdgeOrigin::Human
        }
    }
}

/// A directed, labelled relationship between two items; confidence in parts
/// per million.
#[derive(Debug)]
pub struct Edge {
    pub source_id: String,
    pub target_id: String,
    pub relation_type: String,
    pub origin: EdgeOrigin,
    pub confidence: i64,
    pub created_at: i64,
    pub updated_at: i64,
}

pub struct EdgeView {
    pub source_id: Seq<char>,
    pub target_id: Seq<char>,
    pub relation_type: Seq<char>,
    pub origin: EdgeOrigin,
    pub confidence: i64,
    pub created_at: i64,
    pub updated_at: i64,
}

impl View for Edge {
    type V = EdgeView;

    open spec fn view(&self) -> EdgeView {
        EdgeView {
            source_id: self.source_id@,
            target_id: self.target_id@,
            relation_type: self.relation_type@,
            origin: self.origin,
            confidence: self.confidence,
            created_at: self.created_at,
            updated_at: self.updated_at,
        }
    }
}

impl EdgeView {
    pub open spec fn joins(self, source: Seq<char>, target: Seq<char>) -> bool {
        self.source_id == source && self.target_id == target
    }

    pub open spec fn touches(self, id: Seq<char>) -> bool {
        self.source_id == id || self.target_id == id
    }
}

/// No directed pair of items has two edges.
pub open spec fn pairs_unique(t: Seq<EdgeView>) -> bool {
    forall|i: int, j: int|
        0 <= i < t.len() && 0 <= j < t.len() && i != j ==> !(#[trigger] t[i]).joins(
            (#[trigger] t[j]).source_id,
            t[j].target_id,
        )
}

pub open spec fn has_pair(t: Seq<EdgeView>, source: Seq<char>, target: Seq<char>) -> bool {
    exists|k: int| 0 <= k < t.len() && (#[trigger] t[k]).joins(source, target)
}

/// The position of the edge from `source` to `target`, where there is one.
pub open spec fn pair_index(t: Seq<EdgeView>, source: Seq<char>, target: Seq<char>) -> int {
    choose|k: int| 0 <= k < t.len() && (#[trigger] t[k]).joins(source, target)
}

/// A new inferred edge for `rel`.
pub open spec fn inferred_edge(rel: RelationView, now: i64) -> EdgeView {
    EdgeView {
        source_id: rel.source_id,
        target_id: rel.target_id,
        relation_type: rel.relation,
        origin: EdgeOrigin::Ai,
        confidence: rel.confidence,
        created_at: now,
        updated_at: now,
    }
}

/// Whether writing `rel` over the existing edge `e` changes it: a human
/// edge is only refreshed where `refresh_human` asks for it.
pub open spec fn refreshes(e: EdgeView, refresh_human: bool) -> bool {
    e.origin == EdgeOrigin::Ai || refresh_human
}

/// The table after writing an inferred relation: an existing edge of the
/// same direction gets the new label, confidence and time and keeps its
/// origin and creation time; otherwise a new edge is added at the end.
pub open spec fn upserted(t: Seq<EdgeView>, rel: RelationView, now: i64, refresh_human: bool) -> Seq<
    EdgeView,
> {
    if has_pair(t, rel.source_id, rel.target_id) {
        let k = pair_index(t, rel.source_id, rel.target_id);
        if refreshes(t[k], refresh_human) {
            t.update(
                k,
                EdgeView {
                    relation_type: rel.relation,
                    confidence: rel.confidence,
                    updated_at: now,
                    ..t[k]
                },
            )
        } else {
            t
        }
    } else {
        t.push(inferred_edge(rel, now))
    }
}

/// The table after an edge is written as given (see `EdgeTable::add_edge`).
pub open spec fn put(t: Seq<EdgeView>, e: EdgeView) -> Seq<EdgeView> {
    if has_pair(t, e.source_id, e.target_id) {
        let k = pair_index(t, e.source_id, e.target_id);
        t.update(k, EdgeView { created_at: t[k].created_at, ..e })
    } else {
        t.push(e)
    }
}

/// Whether re-extraction for the items `ids` removes the edge `e`.
pub open spec fn removed_by_reextract(e: EdgeView, ids: Seq<String>) -> bool {
    e.origin == EdgeOrigin::Ai && (holds_text(ids, e.source_id) || holds_text(ids, e.target_id))
}

/// The edges that re-extraction for the items `ids` keeps, in order.
pub open spec fn kept_after_reextract(t: Seq<EdgeView>, ids: Seq<String>) -> Seq<EdgeView>
    decreases t.len(),
{
    if t.len() == 0 {
        Seq::empty()
    } else {
        let prev = kept_after_reextract(t.drop_last(), ids);
        if removed_by_reextract(t.last(), ids) {
            prev
        } else {
            prev.push(t.last())
        }
    }
}

/// Every edge of the graph, at most one for each directed pair of items.
pub struct EdgeTable {
    edges: Vec<Edge>,
}

impl View for EdgeTable {
    type V = Seq<EdgeView>;

    closed spec fn view(&self) -> Seq<EdgeView> {
        self.edges@.map_values(|e: Edge| e@)
    }
}

impl Edge {
    fn copy(&self) -> (r: Edge)
        ensures
            r@ == self@,
    {
        Edge {
            source_id: copy_string(&self.source_id),
            target_id: copy_string(&self.target_id),
            relation_type: copy_string(&self.relation_type),
            origin: self.origin,
            confidence: self.confidence,
            created_at: self.created_at,
            updated_at: self.updated_at,
        }
    }
}

proof fn lemma_kept_subset(t: Seq<EdgeView>, ids: Seq<String>)
    ensures
        forall|i: int|
            0 <= i < kept_after_reextract(t, ids).len() ==> t.contains(
                #[trigger] kept_after_reextract(t, ids)[i],
            ),
        forall|i: int|
            0 <= i < t.len() && !removed_by_reextract(#[trigger] t[i], ids) ==> kept_after_reextract(
                t,
                ids,
            ).contains(t[i]),
    decreases t.len(),
{
    if t.len() > 0 {
        let u = t.drop_last();
        lemma_kept_subset(u, ids);
        let p = kept_after_reextract(u, ids);
        let r = kept_after_reextract(t, ids);
        assert forall|i: int| 0 <= i < r.len() implies t.contains(#[trigger] r[i]) by {
            if i < p.len() {
                assert(r[i] == p[i]);
                let k = choose|k: int| 0 <= k < u.len() && u[k] == p[i];
                assert(t[k] == u[k]);
            } else {
                assert(r[i] == t.last());
                assert(t[t.len() - 1] == r[i]);
            }
        }
        assert forall|i: int| 0 <= i < t.len() && !removed_by_reextract(#[trigger] t[i], ids) implies r.contains(
            t[i],
        ) by {
            if i < u.len() {
                assert(u[i] == t[i]);
                let k = choose|k: int| 0 <= k < p.len() && p[k] == u[i];
                assert(r[k] == p[k]);
            } else {
                assert(r[r.len() - 1] == t[i]);
            }
        }
    }
}

impl EdgeTable {
    /// No directed pair of items has two edges.
    pub open spec fn wf(&self) -> bool {
        pairs_unique(self@)
    }

    /// A table with no edges.
    pub fn new() -> (r: EdgeTable)
        ensures
            r@ == Seq::<EdgeView>::empty(),
            r.wf(),
    {
        let r = EdgeTable { edges: Vec::new() };
        assert(r@ =~= Seq::<EdgeView>::empty());
        r
    }

    pub fn len(&self) -> (r: usize)
        ensures
            r == self@.len(),
    {
        self.edges.len()
    }

    /// The edge at position `i`.
    pub fn get(&self, i: usize) -> (r: &Edge)
        requires
            i < self@.len(),
        ensures
            r@ == self@[i as int],
    {
        &self.edges[i]
    }

    /// The position of the edge from `source` to `target`.
    pub fn find(&self, source: &String, target: &String) -> (r: Option<usize>)
        requires
            self.wf(),
        ensures
            r is Some <==> has_pair(self@, source@, target@),
            r matches Some(k) ==> k < self@.len() && self@[k as int].joins(source@, target@)
                && k == pair_index(self@, source@, target@),
    {
        let mut i: usize = 0;
        while i < self.edges.len()
            invariant
                i <= self.edges.len(),
                self.wf(),
                forall|k: int| 0 <= k < i ==> !(#[trigger] self@[k]).joins(source@, target@),
            decreases self.edges.len() - i,
        {
            if self.edges[i].source_id == *source && self.edges[i].target_id == *target {
                proof {
                    assert(self@[i as int].joins(source@, target@));
                    let c = pair_index(self@, source@, target@);
                    assert(self@[c].joins(source@, target@));
                    if c != i {
                        assert(!self@[c].joins(self@[i as int].source_id, self@[i as int].target_id));
                    }
                }
                return Some(i);
            }
            i = i + 1;
        }
        None
    }

    /// Writes an inferred relation: the existing edge of the same direction
    /// is refreshed (a human one only where `refresh_human` says so), and no
    /// second edge is ever made for a pair. Returns whether a new edge was
    /// added.
    pub fn upsert_inferred(&mut self, rel: &ExtractedRelation, now: i64, refresh_human: bool) -> (r: bool)
        requires
            old(self).wf(),
        ensures
            final(self)@ == upserted(old(self)@, rel@, now, refresh_human),
            r == !has_pair(old(self)@, rel@.source_id, rel@.target_id),
            final(self).wf(),
    {
        match self.find(&rel.source_id, &rel.target_id) {
            Some(k) => {
                let e = &self.edges[k];
                if e.origin == EdgeOrigin::Ai || refresh_human {
                    let updated = Edge {
                        source_id: copy_string(&e.source_id),
                        target_id: copy_string(&e.target_id),
                        relation_type: copy_string(&rel.relation),
                        origin: e.origin,
                        confidence: rel.confidence,
                        created_at: e.created_at,
                        updated_at: now,
                    };
                    let ghost before = self@;
                    self.edges.set(k, updated);
                    proof {
                        assert(self@ =~= upserted(before, rel@, now, refresh_human));
                        assert forall|i: int, j: int|
                            0 <= i < self@.len() && 0 <= j < self@.len() && i != j implies !(
                            #[trigger] self@[i]).joins((#[trigger] self@[j]).source_id, self@[j].target_id) by {
                            assert(!before[i].joins(before[j].source_id, before[j].target_id));
                        }
                    }
                }
                false
            },
            None => {
                let ghost before = self@;
                self.edges.push(
                    Edge {
                        source_id: copy_string(&rel.source_id),
                        target_id: copy_string(&rel.target_id),
                        relation_type: copy_string(&rel.relation),
                        origin: EdgeOrigin::Ai,
                        confidence: rel.confidence,
                        created_at: now,
                        updated_at: now,
                    },
                );
                proof {
                    assert(self@ =~= before.push(inferred_edge(rel@, now)));
                    assert forall|i: int, j: int|
                        0 <= i < self@.len() && 0 <= j < self@.len() && i != j implies !(
                        #[trigger] self@[i]).joins((#[trigger] self@[j]).source_id, self@[j].target_id) by {
                        if i < before.len() && j < before.len() {
                            assert(!before[i].joins(before[j].source_id, before[j].target_id));
                        } else if i < before.len() {
                            assert(!before[i].joins(rel@.source_id, rel@.target_id));
                        } else {
                            assert(!before[j].joins(rel@.source_id, rel@.target_id));
                        }
                    }
                }
                true
            },
        }
    }

    /// Writes an edge as a person or a stored row gives it: an existing edge
    /// of the same direction takes its label, origin, confidence and update
    /// time and keeps its creation time; otherwise the edge is added.
    pub fn add_edge(&mut self, edge: Edge)
        requires
            old(self).wf(),
        ensures
            final(self).wf(),
            final(self)@ == put(old(self)@, edge@),
    {
        match self.find(&edge.source_id, &edge.target_id) {
            Some(k) => {
                let created_at = self.edges[k].created_at;
                let ghost before = self@;
                let ghost e = edge@;
                self.edges.set(k, Edge { created_at, ..edge });
                proof {
                    assert(self@ =~= put(before, e));
                    assert forall|i: int, j: int|
                        0 <= i < self@.len() && 0 <= j < self@.len() && i != j implies !(
                        #[trigger] self@[i]).joins((#[trigger] self@[j]).source_id, self@[j].target_id) by {
                        assert(!before[i].joins(before[j].source_id, before[j].target_id));
                    }
                }
            },
            None => {
                let ghost before = self@;
                let ghost e = edge@;
                self.edges.push(edge);
                proof {
                    assert(self@ =~= before.push(e));
                    assert forall|i: int, j: int|
                        0 <= i < self@.len() && 0 <= j < self@.len() && i != j implies !(
                        #[trigger] self@[i]).joins((#[trigger] self@[j]).source_id, self@[j].target_id) by {
                        if i < before.len() && j < before.len() {
                            assert(!before[i].joins(before[j].source_id, before[j].target_id));
                        } else if i < before.len() {
                            assert(!before[i].joins(e.source_id, e.target_id));
                        } else {
                            assert(!before[j].joins(e.source_id, e.target_id));
                        }
                    }
                }
            },
        }
    }

    /// Forced re-extraction for the items `ids`: removes the inferred edges
    /// that touch one of them and keeps every other edge, in order. Returns
    /// how many were removed.
    pub fn remove_inferred_touching(&mut self, ids: &Vec<String>) -> (r: usize)
        requires
            old(self).wf(),
        ensures
            final(self).wf(),
            final(self)@ == kept_after_reextract(old(self)@, ids@),
            r == old(self)@.len() - final(self)@.len(),
    {
        let ghost t = self@;
        let mut kept: Vec<Edge> = Vec::new();
        let mut i: usize = 0;
        while i < self.edges.len()
            invariant
                i <= self.edges.len(),
                t == self@,
                pairs_unique(t),
                kept@.map_values(|e: Edge| e@) == kept_after_reextract(t.take(i as int), ids@),
                kept.len() <= i,
            decreases self.edges.len() - i,
        {
            let e = &self.edges[i];
            proof {
                assert(t.take(i as int + 1).drop_last() =~= t.take(i as int));
                assert(t.take(i as int + 1).last() == e@);
            }
            let drop = e.origin == EdgeOrigin::Ai && (contains_text(ids, &e.source_id)
                || contains_text(ids, &e.target_id));
            if !drop {
                let ghost before = kept@;
                kept.push(e.copy());
                proof {
                    assert(kept@.map_values(|e: Edge| e@) =~= before.map_values(|e: Edge| e@).push(
                        e@,
                    ));
                }
            }
            i = i + 1;
        }
        let removed = self.edges.len() - kept.len();
        proof {
            assert(t.take(t.len() as int) =~= t);
            let k = kept@.map_values(|e: Edge| e@);
            lemma_kept_subset(t, ids@);
            assert forall|a: int, b: int|
                0 <= a < k.len() && 0 <= b < k.len() && a != b implies !(#[trigger] k[a]).joins(
                (#[trigger] k[b]).source_id,
                k[b].target_id,
            ) by {
                lemma_kept_positions(t, ids@, a, b);
            }
        }
        self.edges = kept;
        removed
    }

    /// Whether no edge starts or ends at the item `id`.
    pub fn is_isolated(&self, id: &String) -> (r: bool)
        ensures
            r == forall|k: int| 0 <= k < self@.len() ==> !(#[trigger] self@[k]).touches(id@),
    {
        let mut i: usize = 0;
        while i < self.edges.len()
            invariant
                i <= self.edges.len(),
                forall|k: int| 0 <= k < i ==> !(#[trigger] self@[k]).touches(id@),
            decreases self.edges.len() - i,
        {
            if self.edges[i].source_id == *id || self.edges[i].target_id == *id {
                assert(self@[i as int].touches(id@));
                return false;
            }
            i = i + 1;
        }
        true
    }
}

/// Two kept entries come from two different positions of the table.
proof fn lemma_kept_positions(t: Seq<EdgeView>, ids: Seq<String>, a: int, b: int)
    requires
        pairs_unique(t),
        0 <= a < kept_after_reextract(t, ids).len(),
        0 <= b < kept_after_reextract(t, ids).len(),
        a != b,
    ensures
        !kept_after_reextract(t, ids)[a].joins(
            kept_after_reextract(t, ids)[b].source_id,
            kept_after_reextract(t, ids)[b].target_id,
        ),
    decreases t.len(),
{
    let u = t.drop_last();
    let p = kept_after_reextract(u, ids);
    let r = kept_after_reextract(t, ids);
    assert(pairs_unique(u)) by {
        assert forall|i: int, j: int|
            0 <= i < u.len() && 0 <= j < u.len() && i != j implies !(#[trigger] u[i]).joins(
            (#[trigger] u[j]).source_id,
            u[j].target_id,
        ) by {
            assert(u[i] == t[i] && u[j] == t[j]);
        }
    }
    if a < p.len() && b < p.len() {
        lemma_kept_positions(u, ids, a, b);
        assert(r[a] == p[a] && r[b] == p[b]);
    } else {
        lemma_kept_subset(u, ids);
        let last = t.len() - 1;
        let other = if a < p.len() { a } else { b };
        assert(r[other] == p[other]);
        let k = choose|k: int| 0 <= k < u.len() && u[k] == p[other];
        assert(t[k] == u[k]);
        assert(!t[k].joins(t[last].source_id, t[last].target_id));
        assert(!t[last].joins(t[k].source_id, t[k].target_id));
    }
}

/// Re-extraction removes inferred edges only: every edge a person made is
/// still in the table afterwards.
pub proof fn law_reextract_keeps_human_edges(t: Seq<EdgeView>, ids: Seq<String>, i: int)
    requires
        0 <= i < t.len(),
        t[i].origin == EdgeOrigin::Human,
    ensures
        kept_after_reextract(t, ids).contains(t[i]),
{
    lemma_kept_subset(t, ids);
}

/// Writing the same directed relation again changes no edge count: the
/// existing edge is refreshed in place.
pub proof fn law_upsert_same_pair_no_duplicate(
    t: Seq<EdgeView>,
    rel: RelationView,
    now: i64,
    later: i64,
    refresh_human: bool,
)
    requires
        pairs_unique(t),
    ensures
        upserted(upserted(t, rel, now, refresh_human), rel, later, refresh_human).len()
            == upserted(t, rel, now, refresh_human).len(),
        has_pair(upserted(t, rel, now, refresh_human), rel.source_id, rel.target_id),
{
    let once = upserted(t, rel, now, refresh_human);
    if has_pair(t, rel.source_id, rel.target_id) {
        let k = pair_index(t, rel.source_id, rel.target_id);
        assert(once[k].joins(rel.source_id, rel.target_id));
    } else {
        assert(once[t.len() as int].joins(rel.source_id, rel.target_id));
    }
}

/// The table after writing the relations one after another.
pub open spec fn upserted_all(
    t: Seq<EdgeView>,
    rels: Seq<RelationView>,
    now: i64,
    refresh_human: bool,
) -> Seq<EdgeView>
    decreases rels.len(),
{
    if rels.len() == 0 {
        t
    } else {
        upserted(upserted_all(t, rels.drop_last(), now, refresh_human), rels.last(), now, refresh_human)
    }
}

/// Writes the accepted relations of one classifier batch as inferred edges;
/// returns how many were written, new or refreshed.
pub fn apply_relations(
    table: &mut EdgeTable,
    rels: &Vec<ExtractedRelation>,
    now: i64,
    refresh_human: bool,
) -> (r: usize)
    requires
        old(table).wf(),
    ensures
        final(table).wf(),
        final(table)@ == upserted_all(
            old(table)@,
            rels@.map_values(|x: ExtractedRelation| x@),
            now,
            refresh_human,
        ),
        r == rels.len(),
{
    let ghost t0 = table@;
    let ghost rv = rels@.map_values(|x: ExtractedRelation| x@);
    let mut i: usize = 0;
    while i < rels.len()
        invariant
            i <= rels.len(),
            table.wf(),
            rv == rels@.map_values(|x: ExtractedRelation| x@),
            table@ == upserted_all(t0, rv.take(i as int), now, refresh_human),
        decreases rels.len() - i,
    {
        proof {
            assert(rv.take(i as int + 1).drop_last() =~= rv.take(i as int));
            assert(rv.take(i as int + 1).last() == rels[i as int]@);
        }
        table.upsert_inferred(&rels[i], now, refresh_human);
        i = i + 1;
    }
    assert(rv.take(rels.len() as int) =~= rv);
    i
}

proof fn lemma_upserted_unique(t: Seq<EdgeView>, rel: RelationView, now: i64, refresh_human: bool)
    requires
        pairs_unique(t),
    ensures
        pairs_unique(upserted(t, rel, now, refresh_human)),
{
    let r = upserted(t, rel, now, refresh_human);
    if has_pair(t, rel.source_id, rel.target_id) {
        let k = pair_index(t, rel.source_id, rel.target_id);
        assert forall|i: int, j: int|
            0 <= i < r.len() && 0 <= j < r.len() && i != j implies !(#[trigger] r[i]).joins(
            (#[trigger] r[j]).source_id,
            r[j].target_id,
        ) by {
            assert(!t[i].joins(t[j].source_id, t[j].target_id));
        }
    } else {
        assert forall|i: int, j: int|
            0 <= i < r.len() && 0 <= j < r.len() && i != j implies !(#[trigger] r[i]).joins(
            (#[trigger] r[j]).source_id,
            r[j].target_id,
        ) by {
            if i < t.len() && j < t.len() {
                assert(!t[i].joins(t[j].source_id, t[j].target_id));
            } else if i < t.len() {
                assert(!t[i].joins(rel.source_id, rel.target_id));
            } else {
                assert(!t[j].joins(rel.source_id, rel.target_id));
            }
        }
    }
}

proof fn lemma_upserted_all_keeps_human(
    t: Seq<EdgeView>,
    rels: Seq<RelationView>,
    now: i64,
    e: EdgeView,
)
    requires
        pairs_unique(t),
        t.contains(e),
        e.origin == EdgeOrigin::Human,
    ensures
        pairs_unique(upserted_all(t, rels, now, false)),
        upserted_all(t, rels, now, false).contains(e),
    decreases rels.len(),
{
    if rels.len() > 0 {
        lemma_upserted_all_keeps_human(t, rels.drop_last(), now, e);
        let u = upserted_all(t, rels.drop_last(), now, false);
        let rel = rels.last();
        lemma_upserted_unique(u, rel, now, false);
        let i = choose|i: int| 0 <= i < u.len() && u[i] == e;
        let r = upserted(u, rel, now, false);
        if has_pair(u, rel.source_id, rel.target_id) {
            let k = pair_index(u, rel.source_id, rel.target_id);
            if refreshes(u[k], false) {
                assert(k != i);
                assert(r[i] == e);
            }
        } else {
            assert(r[i] == e);
        }
    }
}

/// Forced re-extraction never removes an edge a person made, nor changes
/// it: after the inferred edges of the items `ids` are dropped and the new
/// relations are written (human edges not refreshed), every human edge of
/// the table is still there as it was.
pub proof fn law_reextract_stage_keeps_human_edges(
    t: Seq<EdgeView>,
    ids: Seq<String>,
    rels: Seq<RelationView>,
    now: i64,
    i: int,
)
    requires
        pairs_unique(t),
        0 <= i < t.len(),
        t[i].origin == EdgeOrigin::Human,
    ensures
        upserted_all(kept_after_reextract(t, ids), rels, now, false).contains(t[i]),
{
    let kept = kept_after_reextract(t, ids);
    lemma_kept_subset(t, ids);
    assert forall|a: int, b: int|
        0 <= a < kept.len() && 0 <= b < kept.len() && a != b implies !(#[trigger] kept[a]).joins(
        (#[trigger] kept[b]).source_id,
        kept[b].target_id,
    ) by {
        lemma_kept_positions(t, ids, a, b);
    }
    lemma_upserted_all_keeps_human(kept, rels, now, t[i]);
}

} // verus!
