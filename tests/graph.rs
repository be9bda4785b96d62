use moonshine_core::{expand_node, get_graph, get_node_neighbors, GraphEdge, GraphFilters, GraphNode};

fn node(id: &str, t: &str) -> GraphNode {
    GraphNode {
        id: id.into(),
        node_type: t.into(),
        summary: String::new(),
        context: String::new(),
        memo: String::new(),
        created_at: 0,
        updated_at: 0,
    }
}

fn edge(id: i64, s: &str, t: &str, label: &str, origin: &str) -> GraphEdge {
    GraphEdge {
        id,
        source_id: s.into(),
        target_id: t.into(),
        relation_type: label.into(),
        source: origin.into(),
        confidence: 500_000,
    }
}

fn ids(g: &[GraphNode]) -> Vec<&str> {
    g.iter().map(|n| n.id.as_str()).collect()
}

fn edge_ids(g: &[GraphEdge]) -> Vec<i64> {
    g.iter().map(|e| e.id).collect()
}

#[test]
fn graph_filters_nodes_and_edges() {
    let nodes = vec![node("a", "결정"), node("b", "문제"), node("c", "결정")];
    let edges = vec![
        edge(1, "a", "b", "SUPPORTS", "ai"),
        edge(2, "a", "c", "RELATED_TO", "human"),
        edge(3, "a", "zz", "SUPPORTS", "ai"),
    ];
    let all = GraphFilters { mash_types: None, relation_types: None, sources: None };
    let g = get_graph(&nodes, &edges, &all);
    assert_eq!(ids(&g.nodes), vec!["a", "b", "c"]);
    assert_eq!(edge_ids(&g.edges), vec![1, 2]);
    let f = GraphFilters {
        mash_types: Some(vec!["결정".into()]),
        relation_types: Some(vec![]),
        sources: Some(vec!["ai".into()]),
    };
    let g = get_graph(&nodes, &edges, &f);
    assert_eq!(ids(&g.nodes), vec!["a", "c"]);
    assert_eq!(edge_ids(&g.edges), vec![1]);
    let none = GraphFilters { mash_types: Some(vec!["x".into()]), relation_types: None, sources: None };
    let g = get_graph(&nodes, &edges, &none);
    assert!(g.nodes.is_empty() && g.edges.is_empty());
}

#[test]
fn neighbours_of_a_node() {
    let nodes = vec![node("a", "t"), node("b", "t"), node("c", "t"), node("d", "t")];
    let edges = vec![edge(1, "a", "b", "SUPPORTS", "ai"), edge(2, "c", "a", "SUPPORTS", "ai"), edge(3, "b", "d", "SUPPORTS", "ai")];
    let g = get_node_neighbors(&nodes, &edges, &"a".to_string());
    assert_eq!(ids(&g.nodes), vec!["a", "b", "c"]);
    assert_eq!(edge_ids(&g.edges), vec![1, 2]);
}

#[test]
fn expansion_by_depth() {
    let nodes = vec![node("a", "t"), node("b", "t"), node("c", "t"), node("d", "t")];
    // b -> c goes through "x", which is not a settled node.
    let edges = vec![edge(1, "a", "b", "S", "ai"), edge(2, "x", "b", "S", "ai"), edge(3, "x", "c", "S", "ai"), edge(4, "c", "d", "S", "ai")];
    let g0 = expand_node(&nodes, &edges, &"a".to_string(), 0);
    assert_eq!(ids(&g0.nodes), vec!["a"]);
    assert!(g0.edges.is_empty());
    let g1 = expand_node(&nodes, &edges, &"a".to_string(), 1);
    assert_eq!(ids(&g1.nodes), vec!["a", "b"]);
    assert_eq!(edge_ids(&g1.edges), vec![1]);
    let g3 = expand_node(&nodes, &edges, &"a".to_string(), 3);
    assert_eq!(ids(&g3.nodes), vec!["a", "b", "c"]);
    let g9 = expand_node(&nodes, &edges, &"a".to_string(), 1_000_000);
    assert_eq!(ids(&g9.nodes), vec!["a", "b", "c", "d"]);
    assert_eq!(edge_ids(&g9.edges), vec![1, 4]);
}
