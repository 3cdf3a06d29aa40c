//! The graph merger: combines two canonical graphs into one, deduplicating
//! nodes by label and dropping edges whose endpoints did not survive.
//!
//! Node identity is the label. The first node carrying a label is kept; every
//! later node with the same label folds into it: its property pairs overwrite
//! on key conflicts, a defined numeric id overwrites, a non-empty type
//! overwrites. Edges from either input survive exactly when both endpoints
//! name a merged node. The merged graph carries no hyperedges: they are
//! derived artifacts and must be synthesized anew from the merged graph.

use vstd::prelude::*;
use crate::types::{
    Node, NodeV, Edge, EdgeV, Graph, GraphV, Properties, PropertiesV, PairSeq,
    assoc_get, assoc_has, assoc_insert, assoc_unique,
    lemma_assoc_insert_get, lemma_assoc_get_at, lemma_assoc_get_push, lemma_assoc_get_has,
    nodes_view, edges_view, hyperedges_view,
    clone_node, clone_edge,
};
use crate::strutil::str_eq;

verus! {

/// Whether some node in the list carries the label.
pub open spec fn has_label(ns: Seq<NodeV>, l: Seq<char>) -> bool {
    exists|i: int| 0 <= i < ns.len() && (#[trigger] ns[i]).label == l
}

/// All labels of the node list are pairwise distinct.
pub open spec fn distinct_labels(ns: Seq<NodeV>) -> bool {
    forall|i: int, j: int|
        0 <= i < j < ns.len() ==> (#[trigger] ns[i]).label != (#[trigger] ns[j]).label
}

/// Every edge's endpoints name a node of the list.
pub open spec fn edges_closed(ns: Seq<NodeV>, es: Seq<EdgeV>) -> bool {
    forall|i: int| 0 <= i < es.len()
        ==> has_label(ns, (#[trigger] es[i]).source) && has_label(ns, es[i].target)
}

/// Union of two pair lists: the second list's pairs are written into the
/// first in order, so a conflicting key takes the second list's value.
pub open spec fn union_pairs(a: PairSeq, b: PairSeq) -> PairSeq
    decreases b.len(),
{
    if b.len() == 0 {
        a
    } else {
        assoc_insert(union_pairs(a, b.drop_last()), b.last().0, b.last().1)
    }
}

/// One node folding into the one already holding its label.
pub open spec fn merge_node_into(existing: NodeV, n: NodeV) -> NodeV {
    NodeV {
        id: if n.id is Some { n.id } else { existing.id },
        label: existing.label,
        node_type: if n.node_type.len() > 0 { n.node_type } else { existing.node_type },
        properties: PropertiesV {
            id: existing.properties.id,
            pairs: union_pairs(existing.properties.pairs, n.properties.pairs),
        },
    }
}

/// Inserting one node into the accumulated list: it folds into the first
/// node carrying its label, or is appended.
pub open spec fn merge_insert(acc: Seq<NodeV>, n: NodeV) -> Seq<NodeV>
    decreases acc.len(),
{
    if acc.len() == 0 {
        seq![n]
    } else if acc[0].label == n.label {
        seq![merge_node_into(acc[0], n)] + acc.skip(1)
    } else {
        seq![acc[0]] + merge_insert(acc.skip(1), n)
    }
}

/// Folding a node list into an accumulator, left to right.
pub open spec fn merge_nodes(acc: Seq<NodeV>, ns: Seq<NodeV>) -> Seq<NodeV>
    decreases ns.len(),
{
    if ns.len() == 0 {
        acc
    } else {
        merge_insert(merge_nodes(acc, ns.drop_last()), ns.last())
    }
}

/// Edges surviving the merge: those whose endpoints are both merged labels,
/// in their input order.
pub open spec fn filter_edges(es: Seq<EdgeV>, ns: Seq<NodeV>) -> Seq<EdgeV>
    decreases es.len(),
{
    if es.len() == 0 {
        es
    } else {
        let rest = filter_edges(es.drop_last(), ns);
        if has_label(ns, es.last().source) && has_label(ns, es.last().target) {
            rest.push(es.last())
        } else {
            rest
        }
    }
}

/// The model of the merge: deduplicated nodes, surviving edges, and no
/// hyperedges.
pub open spec fn spec_merge(g1: GraphV, g2: GraphV) -> GraphV {
    let nodes = merge_nodes(Seq::empty(), g1.nodes + g2.nodes);
    GraphV {
        nodes: nodes,
        edges: filter_edges(g1.edges + g2.edges, nodes),
        hyperedges: Seq::empty(),
    }
}

/// Inserting a node whose label is absent appends it.
proof fn lemma_merge_insert_fresh(acc: Seq<NodeV>, n: NodeV)
    requires
        !has_label(acc, n.label),
    ensures
        merge_insert(acc, n) == acc.push(n),
    decreases acc.len(),
{
    if acc.len() == 0 {
        assert(seq![n] =~= acc.push(n));
    } else {
        assert(acc[0].label != n.label);
        assert(forall|j: int| 0 <= j < acc.skip(1).len()
            ==> (#[trigger] acc.skip(1)[j]) == acc[j + 1]);
        assert(!has_label(acc.skip(1), n.label));
        lemma_merge_insert_fresh(acc.skip(1), n);
        assert(seq![acc[0]] + acc.skip(1).push(n) =~= acc.push(n));
    }
}

/// Inserting a node whose label sits first at position `i` folds it there.
proof fn lemma_merge_insert_at(acc: Seq<NodeV>, n: NodeV, i: int)
    requires
        0 <= i < acc.len(),
        acc[i].label == n.label,
        forall|j: int| 0 <= j < i ==> (#[trigger] acc[j]).label != n.label,
    ensures
        merge_insert(acc, n) == acc.update(i, merge_node_into(acc[i], n)),
    decreases i,
{
    if i == 0 {
        assert(seq![merge_node_into(acc[0], n)] + acc.skip(1)
            =~= acc.update(0, merge_node_into(acc[0], n)));
    } else {
        assert(acc.skip(1)[i - 1] == acc[i]);
        assert(forall|j: int| 0 <= j < acc.skip(1).len()
            ==> (#[trigger] acc.skip(1)[j]) == acc[j + 1]);
        lemma_merge_insert_at(acc.skip(1), n, i - 1);
        assert(seq![acc[0]] + acc.skip(1).update(i - 1, merge_node_into(acc[i], n))
            =~= acc.update(i, merge_node_into(acc[i], n)));
    }
}

/// An insert changes no label set member but the inserted one.
proof fn lemma_merge_insert_labels(acc: Seq<NodeV>, n: NodeV)
    ensures
        forall|l: Seq<char>| #[trigger] has_label(merge_insert(acc, n), l)
            <==> (has_label(acc, l) || l == n.label),
    decreases acc.len(),
{
    let r = merge_insert(acc, n);
    if acc.len() == 0 {
        assert(r[0].label == n.label);
        assert forall|l: Seq<char>| #[trigger] has_label(r, l)
            implies has_label(acc, l) || l == n.label by {
            let i = choose|i: int| 0 <= i < r.len() && (#[trigger] r[i]).label == l;
            assert(r[i] == n);
        };
    } else if acc[0].label == n.label {
        assert(forall|j: int| 1 <= j < r.len() ==> r[j] == acc[j]);
        assert(r[0].label == acc[0].label);
        assert forall|l: Seq<char>| has_label(acc, l) || l == n.label
            implies #[trigger] has_label(r, l) by {
            if has_label(acc, l) {
                let i = choose|i: int| 0 <= i < acc.len() && (#[trigger] acc[i]).label == l;
                assert(r[i].label == l);
            } else {
                assert(r[0].label == l);
            }
        };
        assert forall|l: Seq<char>| #[trigger] has_label(r, l)
            implies has_label(acc, l) || l == n.label by {
            let i = choose|i: int| 0 <= i < r.len() && (#[trigger] r[i]).label == l;
            assert(acc[i].label == l);
        };
    } else {
        lemma_merge_insert_labels(acc.skip(1), n);
        let tail = merge_insert(acc.skip(1), n);
        assert(forall|j: int| 1 <= j < r.len() ==> r[j] == tail[j - 1]);
        assert(r[0] == acc[0]);
        assert(forall|i: int| 0 <= i < acc.skip(1).len()
            ==> (#[trigger] acc.skip(1)[i]) == acc[i + 1]);
        assert forall|l: Seq<char>| #[trigger] has_label(r, l)
            implies has_label(acc, l) || l == n.label by {
            let i = choose|i: int| 0 <= i < r.len() && (#[trigger] r[i]).label == l;
            if i == 0 {
                assert(acc[0].label == l);
            } else {
                assert(tail[i - 1].label == l);
                assert(has_label(tail, l));
                if has_label(acc.skip(1), l) {
                    let j = choose|j: int|
                        0 <= j < acc.skip(1).len() && (#[trigger] acc.skip(1)[j]).label == l;
                    assert(acc[j + 1].label == l);
                }
            }
        };
        assert forall|l: Seq<char>| has_label(acc, l) || l == n.label
            implies #[trigger] has_label(r, l) by {
            if has_label(acc, l) {
                let i = choose|i: int| 0 <= i < acc.len() && (#[trigger] acc[i]).label == l;
                if i == 0 {
                    assert(r[0].label == l);
                } else {
                    assert(acc.skip(1)[i - 1].label == l);
                    assert(has_label(acc.skip(1), l));
                    assert(has_label(tail, l));
                    let j = choose|j: int|
                        0 <= j < tail.len() && (#[trigger] tail[j]).label == l;
                    assert(r[j + 1].label == l);
                }
            } else {
                assert(has_label(tail, l));
                let j = choose|j: int| 0 <= j < tail.len() && (#[trigger] tail[j]).label == l;
                assert(r[j + 1].label == l);
            }
        };
    }
}

/// An insert keeps labels pairwise distinct.
proof fn lemma_merge_insert_distinct(acc: Seq<NodeV>, n: NodeV)
    requires
        distinct_labels(acc),
    ensures
        distinct_labels(merge_insert(acc, n)),
    decreases acc.len(),
{
    let r = merge_insert(acc, n);
    if acc.len() == 0 {
    } else if acc[0].label == n.label {
        assert(forall|j: int| 1 <= j < r.len() ==> r[j] == acc[j]);
        assert(r[0].label == acc[0].label);
    } else {
        assert(forall|i: int| 0 <= i < acc.skip(1).len()
            ==> (#[trigger] acc.skip(1)[i]) == acc[i + 1]);
        assert(distinct_labels(acc.skip(1)));
        lemma_merge_insert_distinct(acc.skip(1), n);
        lemma_merge_insert_labels(acc.skip(1), n);
        let tail = merge_insert(acc.skip(1), n);
        assert(forall|j: int| 1 <= j < r.len() ==> r[j] == tail[j - 1]);
        assert(!has_label(acc.skip(1), acc[0].label));
        assert(!has_label(tail, acc[0].label));
        assert(forall|j: int| 1 <= j < r.len() ==> (#[trigger] r[j]).label != acc[0].label) by {
            assert(forall|j: int| 0 <= j < tail.len()
                ==> (#[trigger] tail[j]).label != acc[0].label);
        };
    }
}

/// Merged node lists have pairwise distinct labels.
pub proof fn lemma_merge_nodes_distinct(acc: Seq<NodeV>, ns: Seq<NodeV>)
    requires
        distinct_labels(acc),
    ensures
        distinct_labels(merge_nodes(acc, ns)),
    decreases ns.len(),
{
    if ns.len() > 0 {
        lemma_merge_nodes_distinct(acc, ns.drop_last());
        lemma_merge_insert_distinct(merge_nodes(acc, ns.drop_last()), ns.last());
    }
}

/// Every surviving edge's endpoints are merged labels.
pub proof fn lemma_filter_edges_closed(es: Seq<EdgeV>, ns: Seq<NodeV>)
    ensures
        edges_closed(ns, filter_edges(es, ns)),
    decreases es.len(),
{
    if es.len() > 0 {
        lemma_filter_edges_closed(es.drop_last(), ns);
        let rest = filter_edges(es.drop_last(), ns);
        let r = filter_edges(es, ns);
        if has_label(ns, es.last().source) && has_label(ns, es.last().target) {
            assert(forall|i: int| 0 <= i < rest.len() ==> r[i] == rest[i]);
            assert(r[r.len() - 1] == es.last());
        }
    }
}

/// Reading a key out of a pair union: a key of the second list answers
/// with the second list's value, any other key with the first list's.
pub proof fn lemma_union_pairs_get(a: PairSeq, b: PairSeq, q: Seq<char>)
    requires
        assoc_unique(b),
    ensures
        assoc_get(union_pairs(a, b), q) == if assoc_has(b, q) {
            assoc_get(b, q)
        } else {
            assoc_get(a, q)
        },
    decreases b.len(),
{
    if b.len() == 0 {
        assert(!assoc_has(b, q));
    } else {
        let b0 = b.drop_last();
        let x = b.last();
        assert(forall|j: int| 0 <= j < b0.len() ==> (#[trigger] b0[j]) == b[j]);
        assert(assoc_unique(b0));
        lemma_union_pairs_get(a, b0, q);
        lemma_assoc_insert_get(union_pairs(a, b0), x.0, x.1, q);
        if q == x.0 {
            assert(assoc_has(b, q)) by {
                assert(b[b.len() - 1].0 == q);
            };
            assert(forall|j: int| 0 <= j < b.len() - 1 ==> (#[trigger] b[j]).0 != q);
            lemma_assoc_get_at(b, q, b.len() - 1);
        } else {
            assert(b0.push(x) =~= b);
            lemma_assoc_get_push(b0, x, q);
            assert(assoc_has(b, q) <==> assoc_has(b0, q)) by {
                if assoc_has(b, q) {
                    let i = choose|i: int| 0 <= i < b.len() && (#[trigger] b[i]).0 == q;
                    assert(i < b.len() - 1);
                    assert(b0[i].0 == q);
                }
                if assoc_has(b0, q) {
                    let i = choose|i: int| 0 <= i < b0.len() && (#[trigger] b0[i]).0 == q;
                    assert(b[i].0 == q);
                }
            };
            if assoc_has(b0, q) {
                lemma_assoc_get_has(b0, q);
                assert(assoc_get(b, q) == assoc_get(b0, q));
            }
        }
    }
}

/// Merge identity: merging a graph with distinct node labels and no
/// dangling edges with an empty graph returns its node and edge lists
/// unchanged (and so equal as sets).
pub proof fn lemma_merge_identity(g: GraphV, e: GraphV)
    requires
        e.nodes.len() == 0,
        e.edges.len() == 0,
        distinct_labels(g.nodes),
        edges_closed(g.nodes, g.edges),
    ensures
        spec_merge(g, e).nodes == g.nodes,
        spec_merge(g, e).edges == g.edges,
{
    assert(g.nodes + e.nodes =~= g.nodes);
    lemma_merge_nodes_identity(g.nodes);
    assert(g.edges + e.edges =~= g.edges);
    lemma_filter_edges_identity(g.edges, g.nodes);
}

/// A node list with distinct labels folds into itself.
proof fn lemma_merge_nodes_identity(ns: Seq<NodeV>)
    requires
        distinct_labels(ns),
    ensures
        merge_nodes(Seq::empty(), ns) == ns,
    decreases ns.len(),
{
    if ns.len() == 0 {
    } else {
        let ns0 = ns.drop_last();
        assert(forall|j: int| 0 <= j < ns0.len() ==> (#[trigger] ns0[j]) == ns[j]);
        assert(distinct_labels(ns0));
        lemma_merge_nodes_identity(ns0);
        assert(!has_label(ns0, ns.last().label)) by {
            if has_label(ns0, ns.last().label) {
                let i = choose|i: int|
                    0 <= i < ns0.len() && (#[trigger] ns0[i]).label == ns.last().label;
                assert(ns[i].label == ns[ns.len() - 1].label);
            }
        };
        lemma_merge_insert_fresh(ns0, ns.last());
        assert(ns0.push(ns.last()) =~= ns);
    }
}

/// Edges whose endpoints all name nodes survive a filter unchanged.
proof fn lemma_filter_edges_identity(es: Seq<EdgeV>, ns: Seq<NodeV>)
    requires
        edges_closed(ns, es),
    ensures
        filter_edges(es, ns) == es,
    decreases es.len(),
{
    if es.len() > 0 {
        let es0 = es.drop_last();
        assert(forall|j: int| 0 <= j < es0.len() ==> (#[trigger] es0[j]) == es[j]);
        assert(edges_closed(ns, es0));
        lemma_filter_edges_identity(es0, ns);
        assert(es[es.len() - 1] == es.last());
        assert(has_label(ns, es.last().source) && has_label(ns, es.last().target));
        assert(es0.push(es.last()) =~= es);
    }
}

/// Merge label union: merging two graphs holding one node each, under one
/// label, yields exactly one node, and its property map answers every key
/// with the second node's value where the second node carries the key and
/// with the first node's value elsewhere. With disjoint keys this is the
/// union of the two maps.
pub proof fn lemma_merge_label_union(g1: GraphV, g2: GraphV, n1: NodeV, n2: NodeV, q: Seq<char>)
    requires
        g1.nodes == seq![n1],
        g2.nodes == seq![n2],
        n1.label == n2.label,
        assoc_unique(n2.properties.pairs),
    ensures
        spec_merge(g1, g2).nodes.len() == 1,
        spec_merge(g1, g2).nodes[0].label == n1.label,
        assoc_get(spec_merge(g1, g2).nodes[0].properties.pairs, q)
            == if assoc_has(n2.properties.pairs, q) {
                assoc_get(n2.properties.pairs, q)
            } else {
                assoc_get(n1.properties.pairs, q)
            },
{
    let ns = g1.nodes + g2.nodes;
    assert(ns.len() == 2);
    assert(ns[0] == n1);
    assert(ns[1] == n2);
    assert(ns.drop_last() =~= seq![n1]);
    assert(ns.last() == n2);
    let one = seq![n1];
    assert(one.drop_last() =~= Seq::<NodeV>::empty());
    assert(one.last() == n1);
    assert(merge_nodes(Seq::empty(), one.drop_last()) == Seq::<NodeV>::empty());
    assert(merge_insert(Seq::empty(), n1) == seq![n1]);
    assert(merge_nodes(Seq::empty(), one) == seq![n1]);
    let folded = merge_insert(seq![n1], n2);
    assert(seq![n1][0] == n1);
    assert(folded == seq![merge_node_into(n1, n2)] + seq![n1].skip(1));
    assert(folded =~= seq![merge_node_into(n1, n2)]);
    assert(merge_nodes(Seq::empty(), ns) == folded);
    lemma_union_pairs_get(n1.properties.pairs, n2.properties.pairs, q);
}

/// Merges two canonical graphs: nodes deduplicate by label, edges survive
/// exactly when both endpoints survive, hyperedges are not carried over.
pub fn merge_graphs(graph1: Graph, graph2: Graph) -> (r: Graph)
    ensures
        r@ == spec_merge(graph1@, graph2@),
        distinct_labels(r@.nodes),
        edges_closed(r@.nodes, r@.edges),
{
    let ghost g1 = graph1@;
    let ghost g2 = graph2@;
    let mut all_nodes = graph1.nodes;
    let mut more_nodes = graph2.nodes;
    all_nodes.append(&mut more_nodes);
    let ghost all_nv = nodes_view(all_nodes@);
    proof {
        assert(all_nv =~= g1.nodes + g2.nodes);
    }

    let mut acc: Vec<Node> = Vec::new();
    proof {
        assert(nodes_view(acc@) =~= Seq::<NodeV>::empty());
        assert(all_nv.take(0) =~= Seq::<NodeV>::empty());
    }
    let mut i: usize = 0;
    while i < all_nodes.len()
        invariant
            i <= all_nodes.len(),
            all_nv == nodes_view(all_nodes@),
            nodes_view(acc@) == merge_nodes(Seq::empty(), all_nv.take(i as int)),
        decreases all_nodes.len() - i,
    {
        proof {
            assert(all_nv.take(i + 1).drop_last() =~= all_nv.take(i as int));
            assert(all_nv.take(i + 1).last() == all_nodes@[i as int]@);
        }
        let n = clone_node(&all_nodes[i]);
        merge_insert_exec(&mut acc, n);
        i = i + 1;
    }
    proof {
        assert(all_nv.take(i as int) =~= all_nv);
        lemma_merge_nodes_distinct(Seq::empty(), all_nv);
    }

    let mut all_edges = graph1.edges;
    let mut more_edges = graph2.edges;
    all_edges.append(&mut more_edges);
    let ghost all_ev = edges_view(all_edges@);
    proof {
        assert(all_ev =~= g1.edges + g2.edges);
    }

    let ghost merged_nv = nodes_view(acc@);
    let mut kept: Vec<Edge> = Vec::new();
    proof {
        assert(edges_view(kept@) =~= Seq::<EdgeV>::empty());
        assert(all_ev.take(0) =~= Seq::<EdgeV>::empty());
    }
    let mut j: usize = 0;
    while j < all_edges.len()
        invariant
            j <= all_edges.len(),
            all_ev == edges_view(all_edges@),
            merged_nv == nodes_view(acc@),
            edges_view(kept@) == filter_edges(all_ev.take(j as int), merged_nv),
        decreases all_edges.len() - j,
    {
        proof {
            assert(all_ev.take(j + 1).drop_last() =~= all_ev.take(j as int));
            assert(all_ev.take(j + 1).last() == all_edges@[j as int]@);
        }
        let keep_src = has_node_label(&acc, all_edges[j].source.as_str());
        let keep_tgt = has_node_label(&acc, all_edges[j].target.as_str());
        if keep_src && keep_tgt {
            let e = clone_edge(&all_edges[j]);
            kept.push(e);
            proof {
                assert(edges_view(kept@)
                    =~= filter_edges(all_ev.take(j as int), merged_nv).push(all_edges@[j as int]@));
            }
        }
        j = j + 1;
    }
    proof {
        assert(all_ev.take(j as int) =~= all_ev);
        lemma_filter_edges_closed(all_ev, merged_nv);
    }

    let r = Graph { nodes: acc, edges: kept, hyperedges: Vec::new() };
    proof {
        assert(hyperedges_view(r.hyperedges@) =~= Seq::<crate::types::HyperedgeV>::empty());
    }
    r
}

/// Whether some node of the vector carries the label.
pub fn has_node_label(nodes: &Vec<Node>, l: &str) -> (r: bool)
    ensures
        r == has_label(nodes_view(nodes@), l@),
{
    let mut i: usize = 0;
    while i < nodes.len()
        invariant
            i <= nodes.len(),
            forall|j: int| 0 <= j < i ==> (#[trigger] nodes_view(nodes@)[j]).label != l@,
        decreases nodes.len() - i,
    {
        if str_eq(nodes[i].label.as_str(), l) {
            proof {
                assert(nodes_view(nodes@)[i as int].label == l@);
            }
            return true;
        }
        i = i + 1;
    }
    false
}

/// Writes the second map's pairs into the first, in order.
fn extend_properties(p: &mut Properties, q: &Properties)
    ensures
        final(p)@.pairs == union_pairs(old(p)@.pairs, q@.pairs),
        final(p)@.id == old(p)@.id,
{
    let ghost orig = p@.pairs;
    let ghost qp = q@.pairs;
    proof {
        assert(qp.take(0) =~= Seq::<(Seq<char>, Seq<char>)>::empty());
    }
    let mut i: usize = 0;
    while i < q.other.len()
        invariant
            i <= q.other.len(),
            qp == q@.pairs,
            p@.pairs == union_pairs(orig, qp.take(i as int)),
            p@.id == old(p)@.id,
        decreases q.other.len() - i,
    {
        proof {
            assert(qp.take(i + 1).drop_last() =~= qp.take(i as int));
            assert(qp.take(i + 1).last() == (q.other@[i as int].0@, q.other@[i as int].1@));
        }
        p.insert(q.other[i].0.clone(), q.other[i].1.clone());
        i = i + 1;
    }
    proof {
        assert(qp.take(i as int) =~= qp);
    }
}

/// Folds one node into the accumulated list, in place.
fn merge_insert_exec(acc: &mut Vec<Node>, n: Node)
    ensures
        nodes_view(final(acc)@) == merge_insert(nodes_view(old(acc)@), n@),
{
    let ghost accv = nodes_view(acc@);
    let ghost nv = n@;
    let mut i: usize = 0;
    while i < acc.len()
        invariant
            i <= acc.len(),
            nodes_view(acc@) == accv,
            forall|j: int| 0 <= j < i ==> (#[trigger] accv[j]).label != nv.label,
        decreases acc.len() - i,
    {
        if str_eq(acc[i].label.as_str(), n.label.as_str()) {
            let mut existing = clone_node(&acc[i]);
            if n.id.is_some() {
                existing.id = n.id;
            }
            if !n.node_type.as_str().is_empty() {
                existing.node_type = n.node_type.clone();
            }
            extend_properties(&mut existing.properties, &n.properties);
            proof {
                assert(existing@ == merge_node_into(accv[i as int], nv));
            }
            acc[i] = existing;
            proof {
                lemma_merge_insert_at(accv, nv, i as int);
                assert(nodes_view(acc@) =~= accv.update(i as int, merge_node_into(accv[i as int], nv)));
            }
            return;
        }
        i = i + 1;
    }
    acc.push(n);
    proof {
        lemma_merge_insert_fresh(accv, nv);
        assert(nodes_view(acc@) =~= accv.push(nv));
    }
}

} // verus!
