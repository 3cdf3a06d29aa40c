use graph_synth::types::{Node, Edge, Graph, Properties};
use graph_synth::hyper::add_hyperedges;
use graph_synth::graphml::parse_graphml;

fn props(pairs: &[(&str, &str)]) -> Properties {
    let mut p = Properties::new();
    for (k, v) in pairs {
        p.insert(k.to_string(), v.to_string());
    }
    p
}

fn node(label: &str, pairs: &[(&str, &str)]) -> Node {
    Node {
        id: None,
        label: label.to_string(),
        node_type: "t".to_string(),
        properties: props(pairs),
    }
}

fn edge(source: &str, target: &str, pairs: &[(&str, &str)]) -> Edge {
    Edge {
        source: source.to_string(),
        target: target.to_string(),
        relation_type: "r".to_string(),
        properties: props(pairs),
    }
}

#[test]
fn shared_domain_property_from_graphml_yields_one_hyperedge() {
    // Two parsed nodes carrying the named property domain = evil.com
    // group into one node_property hyperedge over their labels.
    let xml = "<graphml>\
        <node id=\"n1\"><mtg:Property name=\"domain\">evil.com</mtg:Property></node>\
        <node id=\"n2\"><mtg:Property name=\"domain\">evil.com</mtg:Property></node>\
        </graphml>";
    let (nodes, edges) = parse_graphml(xml.as_bytes()).unwrap();
    let label_a = nodes[0].label.clone();
    let label_b = nodes[1].label.clone();
    let mut g = Graph { nodes, edges, hyperedges: Vec::new() };
    add_hyperedges(&mut g, None);
    assert_eq!(g.hyperedges.len(), 1);
    let h = &g.hyperedges[0];
    assert_eq!(h.label, "evil.com");
    assert_eq!(h.edge_type, "domain");
    assert_eq!(h.hypertype, "node_property");
    assert_eq!(h.value, vec![label_a, label_b]);
}

#[test]
fn groups_of_one_yield_no_hyperedge() {
    let mut g = Graph {
        nodes: vec![node("A", &[("k", "v")]), node("B", &[("k", "other")])],
        edges: vec![],
        hyperedges: Vec::new(),
    };
    add_hyperedges(&mut g, None);
    assert_eq!(g.hyperedges.len(), 0);
}

#[test]
fn every_hyperedge_holds_at_least_two_members() {
    let mut g = Graph {
        nodes: vec![
            node("A", &[("k", "v"), ("solo", "x")]),
            node("B", &[("k", "v")]),
            node("C", &[("k", "v")]),
        ],
        edges: vec![edge("A", "B", &[("p", "q")]), edge("B", "C", &[("p", "q")])],
        hyperedges: Vec::new(),
    };
    add_hyperedges(&mut g, None);
    assert_eq!(g.hyperedges.len(), 2);
    for h in &g.hyperedges {
        assert!(h.value.len() >= 2);
    }
    assert_eq!(g.hyperedges[0].hypertype, "node_property");
    assert_eq!(g.hyperedges[0].value, vec!["A".to_string(), "B".to_string(), "C".to_string()]);
    assert_eq!(g.hyperedges[1].hypertype, "superedge");
}

#[test]
fn filter_keeps_only_matching_group_value() {
    let mut g = Graph {
        nodes: vec![
            node("A", &[("k", "v"), ("m", "w")]),
            node("B", &[("k", "v"), ("m", "w")]),
        ],
        edges: vec![],
        hyperedges: Vec::new(),
    };
    add_hyperedges(&mut g, Some("w".to_string()));
    assert_eq!(g.hyperedges.len(), 1);
    assert_eq!(g.hyperedges[0].label, "w");
    assert_eq!(g.hyperedges[0].edge_type, "m");
}

#[test]
fn filter_with_no_match_adds_nothing() {
    let mut g = Graph {
        nodes: vec![node("A", &[("k", "v")]), node("B", &[("k", "v")])],
        edges: vec![],
        hyperedges: Vec::new(),
    };
    add_hyperedges(&mut g, Some("elsewhere".to_string()));
    assert_eq!(g.hyperedges.len(), 0);
}

#[test]
fn superedge_members_concatenate_source_and_target() {
    let mut g = Graph {
        nodes: vec![],
        edges: vec![edge("x", "y", &[("p", "q")]), edge("y", "z", &[("p", "q")])],
        hyperedges: Vec::new(),
    };
    add_hyperedges(&mut g, None);
    assert_eq!(g.hyperedges.len(), 1);
    let h = &g.hyperedges[0];
    assert_eq!(h.hypertype, "superedge");
    assert_eq!(h.value, vec!["xy".to_string(), "yz".to_string()]);
}

#[test]
fn distinct_edges_may_collide_into_one_member_identifier() {
    // The member identifier concatenates source and target with no
    // separator, as the ingested format defines it, so ("ab", "c") and
    // ("a", "bc") share the identifier "abc".
    let mut g = Graph {
        nodes: vec![],
        edges: vec![edge("ab", "c", &[("p", "q")]), edge("a", "bc", &[("p", "q")])],
        hyperedges: Vec::new(),
    };
    add_hyperedges(&mut g, None);
    assert_eq!(g.hyperedges.len(), 1);
    assert_eq!(g.hyperedges[0].value, vec!["abc".to_string(), "abc".to_string()]);
}

#[test]
fn synthesis_appends_and_leaves_nodes_and_edges_alone() {
    let mut g = Graph {
        nodes: vec![node("A", &[("k", "v")]), node("B", &[("k", "v")])],
        edges: vec![edge("A", "B", &[])],
        hyperedges: Vec::new(),
    };
    add_hyperedges(&mut g, None);
    assert_eq!(g.nodes.len(), 2);
    assert_eq!(g.edges.len(), 1);
    assert_eq!(g.hyperedges.len(), 1);
    // Running the synthesizer again appends the same group once more:
    // derivation is repeatable, and appending is the caller's choice.
    add_hyperedges(&mut g, None);
    assert_eq!(g.hyperedges.len(), 2);
    assert_eq!(g.hyperedges[0].value, g.hyperedges[1].value);
}
