use graph_synth::types::{Node, Edge, Graph, Properties};
use graph_synth::merge::merge_graphs;

fn props(pairs: &[(&str, &str)]) -> Properties {
    let mut p = Properties::new();
    for (k, v) in pairs {
        p.insert(k.to_string(), v.to_string());
    }
    p
}

fn node(label: &str, ntype: &str, id: Option<i32>, pairs: &[(&str, &str)]) -> Node {
    Node { id, label: label.to_string(), node_type: ntype.to_string(), properties: props(pairs) }
}

fn edge(source: &str, target: &str, relation: &str) -> Edge {
    Edge {
        source: source.to_string(),
        target: target.to_string(),
        relation_type: relation.to_string(),
        properties: Properties::new(),
    }
}

fn graph(nodes: Vec<Node>, edges: Vec<Edge>) -> Graph {
    Graph { nodes, edges, hyperedges: Vec::new() }
}

#[test]
fn merge_label_union_of_disjoint_properties() {
    // Two one-node graphs under one label with disjoint keys merge into a
    // single node holding the union of both property maps.
    let g1 = graph(vec![node("A", "t1", Some(1), &[("k1", "v1")])], vec![]);
    let g2 = graph(vec![node("A", "t2", Some(3), &[("k2", "v2")])], vec![]);
    let merged = merge_graphs(g1, g2);
    assert_eq!(merged.nodes.len(), 1);
    let n = &merged.nodes[0];
    assert_eq!(n.label, "A");
    assert_eq!(n.properties.get("k1"), Some(&"v1".to_string()));
    assert_eq!(n.properties.get("k2"), Some(&"v2".to_string()));
    assert_eq!(n.properties.other.len(), 2);
    // The later node's id and non-empty type overwrite.
    assert_eq!(n.id, Some(3));
    assert_eq!(n.node_type, "t2");
}

#[test]
fn merge_conflicting_key_takes_later_value() {
    let g1 = graph(vec![node("A", "t", None, &[("k", "old"), ("only1", "x")])], vec![]);
    let g2 = graph(vec![node("A", "t", None, &[("k", "new")])], vec![]);
    let merged = merge_graphs(g1, g2);
    assert_eq!(merged.nodes.len(), 1);
    assert_eq!(merged.nodes[0].properties.get("k"), Some(&"new".to_string()));
    assert_eq!(merged.nodes[0].properties.get("only1"), Some(&"x".to_string()));
}

#[test]
fn merge_keeps_earlier_id_and_type_when_later_is_empty() {
    let g1 = graph(vec![node("A", "t1", Some(1), &[])], vec![]);
    let g2 = graph(vec![node("A", "", None, &[])], vec![]);
    let merged = merge_graphs(g1, g2);
    assert_eq!(merged.nodes.len(), 1);
    assert_eq!(merged.nodes[0].id, Some(1));
    assert_eq!(merged.nodes[0].node_type, "t1");
}

#[test]
fn merge_with_empty_graph_is_identity() {
    // Merging a graph with distinct labels and no dangling edges with an
    // empty graph keeps its node and edge lists unchanged.
    let g = graph(
        vec![node("A", "t1", Some(1), &[("k", "v")]), node("B", "t2", None, &[])],
        vec![edge("A", "B", "connects")],
    );
    let merged = merge_graphs(g, graph(vec![], vec![]));
    assert_eq!(merged.nodes.len(), 2);
    assert_eq!(merged.nodes[0].label, "A");
    assert_eq!(merged.nodes[0].id, Some(1));
    assert_eq!(merged.nodes[0].properties.get("k"), Some(&"v".to_string()));
    assert_eq!(merged.nodes[1].label, "B");
    assert_eq!(merged.edges.len(), 1);
    assert_eq!(merged.edges[0].source, "A");
    assert_eq!(merged.edges[0].target, "B");
    assert_eq!(merged.edges[0].relation_type, "connects");
}

#[test]
fn merge_drops_edge_whose_endpoint_never_survives() {
    // Graph1 carries an edge to a node no input holds: the merged graph
    // must not retain it.
    let g1 = graph(vec![node("X", "t", None, &[])], vec![edge("X", "Y", "rel")]);
    let g2 = graph(vec![node("Z", "t", None, &[])], vec![]);
    let merged = merge_graphs(g1, g2);
    assert_eq!(merged.nodes.len(), 2);
    assert_eq!(merged.edges.len(), 0);
}

#[test]
fn merge_keeps_edge_when_second_graph_supplies_endpoint() {
    let g1 = graph(vec![node("X", "t", None, &[])], vec![edge("X", "Y", "rel")]);
    let g2 = graph(vec![node("Y", "t", None, &[])], vec![]);
    let merged = merge_graphs(g1, g2);
    assert_eq!(merged.nodes.len(), 2);
    assert_eq!(merged.edges.len(), 1);
    assert_eq!(merged.edges[0].target, "Y");
}

#[test]
fn merge_every_surviving_edge_names_surviving_nodes() {
    // Dangling-edge removal, checked over a mixed merge: every kept
    // edge's endpoints appear among the merged labels.
    let g1 = graph(
        vec![node("A", "t", None, &[]), node("B", "t", None, &[])],
        vec![edge("A", "B", "r1"), edge("A", "gone", "r2")],
    );
    let g2 = graph(
        vec![node("C", "t", None, &[])],
        vec![edge("B", "C", "r3"), edge("missing", "C", "r4")],
    );
    let merged = merge_graphs(g1, g2);
    let labels: Vec<&String> = merged.nodes.iter().map(|n| &n.label).collect();
    for e in &merged.edges {
        assert!(labels.contains(&&e.source));
        assert!(labels.contains(&&e.target));
    }
    // Exactly the two closed edges survive; two of four were dropped, a
    // count a caller can always recover.
    assert_eq!(merged.edges.len(), 2);
}

#[test]
fn merge_deduplicates_repeated_labels_across_both_inputs() {
    let g1 = graph(
        vec![node("A", "t", None, &[("k1", "v1")]), node("A", "t", None, &[("k2", "v2")])],
        vec![],
    );
    let g2 = graph(vec![node("A", "t", None, &[("k3", "v3")])], vec![]);
    let merged = merge_graphs(g1, g2);
    assert_eq!(merged.nodes.len(), 1);
    assert_eq!(merged.nodes[0].properties.other.len(), 3);
}
