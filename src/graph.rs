use vstd::prelude::*;

use crate::models::{admits, filter_admits, GraphFilters, GraphNode};
use crate::text::{contains_text, copy_string, holds_text};

verus! {

/// An edge as drawn, with its stored row id; confidence in parts per million.
#[derive(Debug)]
pub struct GraphEdge {
    pub id: i64,
    pub source_id: String,
    pub target_id: String,
    pub relation_type: String,
    pub source: String,
    pub confidence: i64,
}

/// Nodes and edges to draw.
#[derive(Debug)]
pub struct GraphData {
    pub nodes: Vec<GraphNode>,
    pub edges: Vec<GraphEdge>,
}

pub struct GraphEdgeView {
    pub id: i64,
    pub source_id: Seq<char>,
    pub target_id: Seq<char>,
    pub relation_type: Seq<char>,
    pub source: Seq<char>,
    pub confidence: i64,
}

impl View for GraphEdge {
    type V = GraphEdgeView;

    open spec fn view(&self) -> GraphEdgeView {
        GraphEdgeView {
            id: self.id,
            source_id: self.source_id@,
            target_id: self.target_id@,
            relation_type: self.relation_type@,
            source: self.source@,
            confidence: self.confidence,
        }
    }
}

pub struct GraphNodeView {
    pub id: Seq<char>,
    pub node_type: Seq<char>,
    pub summary: Seq<char>,
    pub context: Seq<char>,
    pub memo: Seq<char>,
    pub created_at: i64,
    pub updated_at: i64,
}

impl View for GraphNode {
    type V = GraphNodeView;

    open spec fn view(&self) -> GraphNodeView {
        GraphNodeView {
            id: self.id@,
            node_type: self.node_type@,
            summary: self.summary@,
            context: self.context@,
            memo: self.memo@,
            created_at: self.created_at,
            updated_at: self.updated_at,
        }
    }
}

impl GraphNode {
    pub fn copy(&self) -> (r: GraphNode)
        ensures
            r@ == self@,
    {
        GraphNode {
            id: copy_string(&self.id),
            node_type: copy_string(&self.node_type),
            summary: copy_string(&self.summary),
            context: copy_string(&self.context),
            memo: copy_string(&self.memo),
            created_at: self.created_at,
            updated_at: self.updated_at,
        }
    }
}

impl GraphEdge {
    pub fn copy(&self) -> (r: GraphEdge)
        ensures
            r@ == self@,
    {
        GraphEdge {
            id: self.id,
            source_id: copy_string(&self.source_id),
            target_id: copy_string(&self.target_id),
            relation_type: copy_string(&self.relation_type),
            source: copy_string(&self.source),
            confidence: self.confidence,
        }
    }
}

pub open spec fn node_views(s: Seq<GraphNode>) -> Seq<GraphNodeView> {
    s.map_values(|n: GraphNode| n@)
}

pub open spec fn edge_views(s: Seq<GraphEdge>) -> Seq<GraphEdgeView> {
    s.map_values(|e: GraphEdge| e@)
}

/// Whether `id` names one of the nodes.
pub open spec fn is_node(nodes: Seq<GraphNode>, id: Seq<char>) -> bool {
    exists|k: int| 0 <= k < nodes.len() && (#[trigger] nodes[k]).id@ == id
}

fn has_node(nodes: &Vec<GraphNode>, id: &String) -> (r: bool)
    ensures
        r == is_node(nodes@, id@),
{
    let mut i: usize = 0;
    while i < nodes.len()
        invariant
            i <= nodes.len(),
            forall|k: int| 0 <= k < i ==> (#[trigger] nodes@[k]).id@ != id@,
        decreases nodes.len() - i,
    {
        if nodes[i].id == *id {
            assert(nodes@[i as int].id@ == id@);
            return true;
        }
        i = i + 1;
    }
    false
}

/// The nodes whose type the filters admit, in order.
pub open spec fn nodes_admitted(nodes: Seq<GraphNode>, f: GraphFilters) -> Seq<GraphNodeView>
    decreases nodes.len(),
{
    if nodes.len() == 0 {
        Seq::empty()
    } else {
        let prev = nodes_admitted(nodes.drop_last(), f);
        if admits(f.mash_types, nodes.last().node_type@) {
            prev.push(nodes.last()@)
        } else {
            prev
        }
    }
}

/// Whether the graph shows an edge: both ends are settled nodes and the
/// filters admit its label and origin.
pub open spec fn edge_shown(e: GraphEdge, nodes: Seq<GraphNode>, f: GraphFilters) -> bool {
    &&& is_node(nodes, e.source_id@)
    &&& is_node(nodes, e.target_id@)
    &&& admits(f.relation_types, e.relation_type@)
    &&& admits(f.sources, e.source@)
}

pub open spec fn edges_shown(edges: Seq<GraphEdge>, nodes: Seq<GraphNode>, f: GraphFilters) -> Seq<
    GraphEdgeView,
>
    decreases edges.len(),
{
    if edges.len() == 0 {
        Seq::empty()
    } else {
        let prev = edges_shown(edges.drop_last(), nodes, f);
        if edge_shown(edges.last(), nodes, f) {
            prev.push(edges.last()@)
        } else {
            prev
        }
    }
}

/// The graph of the settled items `nodes` and the stored `edges`, narrowed
/// by the filters: nodes by type; edges between settled items by label and
/// origin. With no node left, the graph is empty.
pub fn get_graph(nodes: &Vec<GraphNode>, edges: &Vec<GraphEdge>, filters: &GraphFilters) -> (r:
    GraphData)
    ensures
        node_views(r.nodes@) == nodes_admitted(nodes@, *filters),
        nodes_admitted(nodes@, *filters).len() == 0 ==> r.edges@.len() == 0,
        nodes_admitted(nodes@, *filters).len() > 0 ==> edge_views(r.edges@) == edges_shown(
            edges@,
            nodes@,
            *filters,
        ),
{
    let mut kept: Vec<GraphNode> = Vec::new();
    let mut i: usize = 0;
    while i < nodes.len()
        invariant
            i <= nodes.len(),
            node_views(kept@) == nodes_admitted(nodes@.take(i as int), *filters),
        decreases nodes.len() - i,
    {
        proof {
            assert(nodes@.take(i as int + 1).drop_last() =~= nodes@.take(i as int));
            assert(nodes@.take(i as int + 1).last() == nodes@[i as int]);
        }
        if filter_admits(&filters.mash_types, &nodes[i].node_type) {
            let ghost before = kept@;
            kept.push(nodes[i].copy());
            assert(node_views(kept@) =~= node_views(before).push(nodes@[i as int]@));
        }
        i = i + 1;
    }
    assert(nodes@.take(nodes.len() as int) =~= nodes@);
    if kept.len() == 0 {
        return GraphData { nodes: kept, edges: Vec::new() };
    }
    let mut shown: Vec<GraphEdge> = Vec::new();
    let mut j: usize = 0;
    while j < edges.len()
        invariant
            j <= edges.len(),
            edge_views(shown@) == edges_shown(edges@.take(j as int), nodes@, *filters),
        decreases edges.len() - j,
    {
        proof {
            assert(edges@.take(j as int + 1).drop_last() =~= edges@.take(j as int));
            assert(edges@.take(j as int + 1).last() == edges@[j as int]);
        }
        let e = &edges[j];
        if has_node(nodes, &e.source_id) && has_node(nodes, &e.target_id) && filter_admits(
            &filters.relation_types,
            &e.relation_type,
        ) && filter_admits(&filters.sources, &e.source) {
            let ghost before = shown@;
            shown.push(e.copy());
            assert(edge_views(shown@) =~= edge_views(before).push(e@));
        }
        j = j + 1;
    }
    assert(edges@.take(edges.len() as int) =~= edges@);
    GraphData { nodes: kept, edges: shown }
}

/// Whether an edge joins `id` and `other`, either way.
pub open spec fn adjacent(edges: Seq<GraphEdge>, id: Seq<char>, other: Seq<char>) -> bool {
    exists|k: int|
        0 <= k < edges.len() && (((#[trigger] edges[k]).source_id@ == id && edges[k].target_id@
            == other) || (edges[k].target_id@ == id && edges[k].source_id@ == other))
}

fn is_adjacent(edges: &Vec<GraphEdge>, id: &String, other: &String) -> (r: bool)
    ensures
        r == adjacent(edges@, id@, other@),
{
    let mut i: usize = 0;
    while i < edges.len()
        invariant
            i <= edges.len(),
            forall|k: int|
                0 <= k < i ==> !(((#[trigger] edges@[k]).source_id@ == id@ && edges@[k].target_id@
                    == other@) || (edges@[k].target_id@ == id@ && edges@[k].source_id@ == other@)),
        decreases edges.len() - i,
    {
        let e = &edges[i];
        if (e.source_id == *id && e.target_id == *other) || (e.target_id == *id && e.source_id
            == *other) {
            assert(((edges@[i as int]).source_id@ == id@ && edges@[i as int].target_id@ == other@)
                || (edges@[i as int].target_id@ == id@ && edges@[i as int].source_id@ == other@));
            return true;
        }
        i = i + 1;
    }
    false
}

pub open spec fn neighbour_nodes(nodes: Seq<GraphNode>, edges: Seq<GraphEdge>, id: Seq<char>) -> Seq<
    GraphNodeView,
>
    decreases nodes.len(),
{
    if nodes.len() == 0 {
        Seq::empty()
    } else {
        let prev = neighbour_nodes(nodes.drop_last(), edges, id);
        let n = nodes.last();
        if n.id@ == id || adjacent(edges, id, n.id@) {
            prev.push(n@)
        } else {
            prev
        }
    }
}

pub open spec fn touching_edges(edges: Seq<GraphEdge>, id: Seq<char>) -> Seq<GraphEdgeView>
    decreases edges.len(),
{
    if edges.len() == 0 {
        Seq::empty()
    } else {
        let prev = touching_edges(edges.drop_last(), id);
        let e = edges.last();
        if e.source_id@ == id || e.target_id@ == id {
            prev.push(e@)
        } else {
            prev
        }
    }
}

/// The item `id` with its neighbours among the settled items `nodes`, and
/// every edge that starts or ends at it.
pub fn get_node_neighbors(nodes: &Vec<GraphNode>, edges: &Vec<GraphEdge>, id: &String) -> (r:
    GraphData)
    ensures
        node_views(r.nodes@) == neighbour_nodes(nodes@, edges@, id@),
        edge_views(r.edges@) == touching_edges(edges@, id@),
{
    let mut kept: Vec<GraphNode> = Vec::new();
    let mut i: usize = 0;
    while i < nodes.len()
        invariant
            i <= nodes.len(),
            node_views(kept@) == neighbour_nodes(nodes@.take(i as int), edges@, id@),
        decreases nodes.len() - i,
    {
        proof {
            assert(nodes@.take(i as int + 1).drop_last() =~= nodes@.take(i as int));
            assert(nodes@.take(i as int + 1).last() == nodes@[i as int]);
        }
        let n = &nodes[i];
        if n.id == *id || is_adjacent(edges, id, &n.id) {
            let ghost before = kept@;
            kept.push(n.copy());
            assert(node_views(kept@) =~= node_views(before).push(n@));
        }
        i = i + 1;
    }
    assert(nodes@.take(nodes.len() as int) =~= nodes@);
    let mut touching: Vec<GraphEdge> = Vec::new();
    let mut j: usize = 0;
    while j < edges.len()
        invariant
            j <= edges.len(),
            edge_views(touching@) == touching_edges(edges@.take(j as int), id@),
        decreases edges.len() - j,
    {
        proof {
            assert(edges@.take(j as int + 1).drop_last() =~= edges@.take(j as int));
            assert(edges@.take(j as int + 1).last() == edges@[j as int]);
        }
        let e = &edges[j];
        if e.source_id == *id || e.target_id == *id {
            let ghost before = touching@;
            touching.push(e.copy());
            assert(edge_views(touching@) =~= edge_views(before).push(e@));
        }
        j = j + 1;
    }
    assert(edges@.take(edges.len() as int) =~= edges@);
    GraphData { nodes: kept, edges: touching }
}

/// One step of expansion: the ids in `s` and every id an edge joins to one
/// of them.
pub open spec fn expand_step(edges: Seq<GraphEdge>, s: Set<Seq<char>>) -> Set<Seq<char>> {
    s.union(
        Set::new(
            |o: Seq<char>|
                exists|k: int|
                    0 <= k < edges.len() && ((s.contains((#[trigger] edges[k]).source_id@)
                        && edges[k].target_id@ == o) || (s.contains(edges[k].target_id@)
                        && edges[k].source_id@ == o)),
        ),
    )
}

/// The ids within `d` edges of `id`, edges taken either way.
pub open spec fn within(edges: Seq<GraphEdge>, id: Seq<char>, d: nat) -> Set<Seq<char>>
    decreases d,
{
    if d == 0 {
        set![id]
    } else {
        expand_step(edges, within(edges, id, (d - 1) as nat))
    }
}

pub open spec fn id_set(v: Seq<String>) -> Set<Seq<char>> {
    Set::new(|x: Seq<char>| holds_text(v, x))
}

proof fn lemma_within_stable(edges: Seq<GraphEdge>, id: Seq<char>, d: nat, m: nat)
    requires
        within(edges, id, d + 1) == within(edges, id, d),
    ensures
        within(edges, id, d + m) == within(edges, id, d),
    decreases m,
{
    if m > 0 {
        lemma_within_stable(edges, id, d, (m - 1) as nat);
        assert(within(edges, id, d + m) == expand_step(edges, within(edges, id, (d + m - 1) as nat)));
        assert((d + m - 1) as nat == d + (m - 1) as nat);
    }
}

proof fn lemma_push_id_set(v: Seq<String>, x: String)
    ensures
        id_set(v.push(x)) == id_set(v).insert(x@),
{
    assert forall|y: Seq<char>| #[trigger] holds_text(v.push(x), y) <==> holds_text(v, y) || y == x@ by {
        if holds_text(v, y) {
            let k = choose|k: int| 0 <= k < v.len() && v[k]@ == y;
            assert(v.push(x)[k] == v[k]);
        }
        if y == x@ {
            assert(v.push(x)[v.len() as int] == x);
        }
        if holds_text(v.push(x), y) {
            let k = choose|k: int| 0 <= k < v.push(x).len() && v.push(x)[k]@ == y;
            if k < v.len() {
                assert(v.push(x)[k] == v[k]);
            }
        }
    }
    assert(id_set(v.push(x)) =~= id_set(v).insert(x@));
}

fn copy_ids(v: &Vec<String>) -> (r: Vec<String>)
    ensures
        id_set(r@) == id_set(v@),
{
    let mut r: Vec<String> = Vec::new();
    let mut i: usize = 0;
    while i < v.len()
        invariant
            i <= v.len(),
            r.len() == i,
            id_set(r@) == id_set(v@.take(i as int)),
        decreases v.len() - i,
    {
        proof {
            lemma_push_id_set(v@.take(i as int), v@[i as int]);
            assert(v@.take(i as int + 1) == v@.take(i as int).push(v@[i as int]));
        }
        let ghost before = r@;
        r.push(copy_string(&v[i]));
        proof {
            lemma_push_id_set(before, r@[i as int]);
        }
        i = i + 1;
    }
    assert(v@.take(v.len() as int) =~= v@);
    r
}

/// One expansion step over the ids in `cur`; also says whether it added any.
fn expand_once(edges: &Vec<GraphEdge>, cur: &Vec<String>) -> (r: (Vec<String>, bool))
    ensures
        id_set(r.0@) == expand_step(edges@, id_set(cur@)),
        !r.1 ==> id_set(r.0@) == id_set(cur@),
{
    let ghost s = id_set(cur@);
    let mut next = copy_ids(cur);
    let mut grew = false;
    let mut j: usize = 0;
    while j < edges.len()
        invariant
            j <= edges.len(),
            s == id_set(cur@),
            id_set(next@) == s.union(
                Set::new(
                    |o: Seq<char>|
                        exists|k: int|
                            0 <= k < j && ((s.contains((#[trigger] edges@[k]).source_id@)
                                && edges@[k].target_id@ == o) || (s.contains(edges@[k].target_id@)
                                && edges@[k].source_id@ == o)),
                ),
            ),
            !grew ==> id_set(next@) == s,
        decreases edges.len() - j,
    {
        let e = &edges[j];
        let ghost before = id_set(next@);
        if contains_text(cur, &e.source_id) && !contains_text(&next, &e.target_id) {
            let ghost nv = next@;
            next.push(copy_string(&e.target_id));
            proof {
                lemma_push_id_set(nv, next@[nv.len() as int]);
            }
            grew = true;
        }
        if contains_text(cur, &e.target_id) && !contains_text(&next, &e.source_id) {
            let ghost nv = next@;
            next.push(copy_string(&e.source_id));
            proof {
                lemma_push_id_set(nv, next@[nv.len() as int]);
            }
            grew = true;
        }
        proof {
            let lhs = id_set(next@);
            let rhs = s.union(
                Set::new(
                    |o: Seq<char>|
                        exists|k: int|
                            0 <= k < j + 1 && ((s.contains((#[trigger] edges@[k]).source_id@)
                                && edges@[k].target_id@ == o) || (s.contains(edges@[k].target_id@)
                                && edges@[k].source_id@ == o)),
                ),
            );
            assert forall|o: Seq<char>| lhs.contains(o) <==> rhs.contains(o) by {
                if rhs.contains(o) && !s.contains(o) {
                    let k = choose|k: int|
                        0 <= k < j + 1 && ((s.contains((#[trigger] edges@[k]).source_id@)
                            && edges@[k].target_id@ == o) || (s.contains(edges@[k].target_id@)
                            && edges@[k].source_id@ == o));
                    if k < j {
                        assert(before.contains(o));
                    }
                }
                if before.contains(o) && !s.contains(o) {
                    let k = choose|k: int|
                        0 <= k < j && ((s.contains((#[trigger] edges@[k]).source_id@)
                            && edges@[k].target_id@ == o) || (s.contains(edges@[k].target_id@)
                            && edges@[k].source_id@ == o));
                    assert(rhs.contains(o));
                }
            }
            assert(lhs =~= rhs);
        }
        j = j + 1;
    }
    proof {
        assert(id_set(next@) =~= expand_step(edges@, s));
    }
    (next, grew)
}

/// The settled nodes within `depth` edges of `id`, in node order.
pub open spec fn nodes_within(nodes: Seq<GraphNode>, reach: Set<Seq<char>>) -> Seq<GraphNodeView>
    decreases nodes.len(),
{
    if nodes.len() == 0 {
        Seq::empty()
    } else {
        let prev = nodes_within(nodes.drop_last(), reach);
        if reach.contains(nodes.last().id@) {
            prev.push(nodes.last()@)
        } else {
            prev
        }
    }
}

/// The edges with both ends among the nodes shown.
pub open spec fn edges_among(edges: Seq<GraphEdge>, shown: Seq<GraphNode>) -> Seq<GraphEdgeView>
    decreases edges.len(),
{
    if edges.len() == 0 {
        Seq::empty()
    } else {
        let prev = edges_among(edges.drop_last(), shown);
        let e = edges.last();
        if is_node(shown, e.source_id@) && is_node(shown, e.target_id@) {
            prev.push(e@)
        } else {
            prev
        }
    }
}

/// The part of the graph within `depth` edges of `id`: the settled nodes
/// reached, walking any edge either way, and the edges among them.
pub fn expand_node(nodes: &Vec<GraphNode>, edges: &Vec<GraphEdge>, id: &String, depth: u32) -> (r:
    GraphData)
    ensures
        node_views(r.nodes@) == nodes_within(nodes@, within(edges@, id@, depth as nat)),
        edge_views(r.edges@) == edges_among(edges@, r.nodes@),
{
    let mut cur: Vec<String> = Vec::new();
    cur.push(copy_string(id));
    proof {
        lemma_push_id_set(Seq::<String>::empty(), cur@[0]);
        assert(cur@ == Seq::<String>::empty().push(cur@[0]));
        assert(id_set(Seq::<String>::empty()) =~= Set::<Seq<char>>::empty());
        assert(id_set(cur@) =~= within(edges@, id@, 0));
    }
    let mut d: u32 = 0;
    while d < depth
        invariant
            d <= depth,
            id_set(cur@) == within(edges@, id@, d as nat),
        ensures
            id_set(cur@) == within(edges@, id@, depth as nat),
        decreases depth - d,
    {
        let (next, grew) = expand_once(edges, &cur);
        proof {
            assert(within(edges@, id@, (d + 1) as nat) == expand_step(edges@, within(edges@, id@, d as nat)));
        }
        if !grew {
            proof {
                lemma_within_stable(edges@, id@, d as nat, (depth - d) as nat);
                assert(d as nat + (depth - d) as nat == depth as nat);
            }
            break;
        }
        cur = next;
        d = d + 1;
    }
    let ghost reach = within(edges@, id@, depth as nat);
    assert(id_set(cur@) == reach);
    let mut kept: Vec<GraphNode> = Vec::new();
    let mut i: usize = 0;
    while i < nodes.len()
        invariant
            i <= nodes.len(),
            id_set(cur@) == reach,
            node_views(kept@) == nodes_within(nodes@.take(i as int), reach),
        decreases nodes.len() - i,
    {
        proof {
            assert(nodes@.take(i as int + 1).drop_last() =~= nodes@.take(i as int));
            assert(nodes@.take(i as int + 1).last() == nodes@[i as int]);
        }
        let n = &nodes[i];
        let hit = contains_text(&cur, &n.id);
        assert(hit == reach.contains(n.id@));
        if hit {
            let ghost before = kept@;
            kept.push(n.copy());
            assert(node_views(kept@) =~= node_views(before).push(n@));
        }
        i = i + 1;
    }
    assert(nodes@.take(nodes.len() as int) =~= nodes@);
    let mut among: Vec<GraphEdge> = Vec::new();
    let mut j: usize = 0;
    while j < edges.len()
        invariant
            j <= edges.len(),
            edge_views(among@) == edges_among(edges@.take(j as int), kept@),
        decreases edges.len() - j,
    {
        proof {
            assert(edges@.take(j as int + 1).drop_last() =~= edges@.take(j as int));
            assert(edges@.take(j as int + 1).last() == edges@[j as int]);
        }
        let e = &edges[j];
        if has_node(&kept, &e.source_id) && has_node(&kept, &e.target_id) {
            let ghost before = among@;
            among.push(e.copy());
            assert(edge_views(among@) =~= edge_views(before).push(e@));
        }
        j = j + 1;
    }
    assert(edges@.take(edges.len() as int) =~= edges@);
    GraphData { nodes: kept, edges: among }
}

} // verus!
