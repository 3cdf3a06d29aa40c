//! The hyperedge synthesizer: derives grouping hyperedges from property
//! key/value pairs shared by at least two nodes, or by at least two edges.
//!
//! Grouping is by the exact pair. A node group's members are the labels of
//! the nodes carrying the pair, in node order; an edge group's members are
//! the edges' source and target concatenated with no separator, as the
//! ingested format defines them (two distinct edges may so collide into one
//! member identifier; see the tests). Groups are emitted in first-occurrence
//! order of their pair, node groups before edge groups, and only groups of
//! two or more members, passing the optional filter value, become
//! hyperedges.

use vstd::prelude::*;
use crate::types::{
    Node, NodeV, Edge, EdgeV, Graph, GraphV, Hyperedge, HyperedgeV, Properties, PairSeq,
    nodes_view, edges_view, hyperedges_view, pairs_view, strings_view,
};
use crate::strutil::{str_eq, str_concat};

verus! {

/// One property pair: a key and a value.
pub type PropPair = (Seq<char>, Seq<char>);

/// The property pair lists of a node list, in order.
pub open spec fn node_pair_lists(ns: Seq<NodeV>) -> Seq<PairSeq> {
    Seq::new(ns.len(), |i: int| ns[i].properties.pairs)
}

/// The property pair lists of an edge list, in order.
pub open spec fn edge_pair_lists(es: Seq<EdgeV>) -> Seq<PairSeq> {
    Seq::new(es.len(), |i: int| es[i].properties.pairs)
}

/// Appends the pairs of one list that were not seen yet, in order.
pub open spec fn add_new_pairs(acc: Seq<PropPair>, ps: PairSeq) -> Seq<PropPair>
    decreases ps.len(),
{
    if ps.len() == 0 {
        acc
    } else {
        let prev = add_new_pairs(acc, ps.drop_last());
        if prev.contains(ps.last()) {
            prev
        } else {
            prev.push(ps.last())
        }
    }
}

/// All distinct property pairs over the lists, in first-occurrence order.
pub open spec fn collect_pairs(lists: Seq<PairSeq>) -> Seq<PropPair>
    decreases lists.len(),
{
    if lists.len() == 0 {
        Seq::empty()
    } else {
        add_new_pairs(collect_pairs(lists.drop_last()), lists.last())
    }
}

/// The labels of the nodes carrying the pair, in node order.
pub open spec fn node_members(ns: Seq<NodeV>, p: PropPair) -> Seq<Seq<char>>
    decreases ns.len(),
{
    if ns.len() == 0 {
        Seq::empty()
    } else {
        let rest = node_members(ns.drop_last(), p);
        if ns.last().properties.pairs.contains(p) {
            rest.push(ns.last().label)
        } else {
            rest
        }
    }
}

/// The member identifiers of the edges carrying the pair, in edge order:
/// each edge's source and target concatenated.
pub open spec fn edge_members(es: Seq<EdgeV>, p: PropPair) -> Seq<Seq<char>>
    decreases es.len(),
{
    if es.len() == 0 {
        Seq::empty()
    } else {
        let rest = edge_members(es.drop_last(), p);
        if es.last().properties.pairs.contains(p) {
            rest.push(es.last().source + es.last().target)
        } else {
            rest
        }
    }
}

/// The filter accepts a group value when unset or equal to it.
pub open spec fn filter_match(f: Option<Seq<char>>, v: Seq<char>) -> bool {
    f is None || f.unwrap() == v
}

/// The node-property hyperedges for the given pairs, in pair order.
pub open spec fn node_hyperedges(
    ns: Seq<NodeV>,
    pairs: Seq<PropPair>,
    f: Option<Seq<char>>,
) -> Seq<HyperedgeV>
    decreases pairs.len(),
{
    if pairs.len() == 0 {
        Seq::empty()
    } else {
        let rest = node_hyperedges(ns, pairs.drop_last(), f);
        let p = pairs.last();
        let members = node_members(ns, p);
        if members.len() >= 2 && filter_match(f, p.1) {
            rest.push(HyperedgeV {
                label: p.1,
                edge_type: p.0,
                hypertype: "node_property"@,
                value: members,
            })
        } else {
            rest
        }
    }
}

/// The superedge hyperedges for the given pairs, in pair order.
pub open spec fn edge_hyperedges(
    es: Seq<EdgeV>,
    pairs: Seq<PropPair>,
    f: Option<Seq<char>>,
) -> Seq<HyperedgeV>
    decreases pairs.len(),
{
    if pairs.len() == 0 {
        Seq::empty()
    } else {
        let rest = edge_hyperedges(es, pairs.drop_last(), f);
        let p = pairs.last();
        let members = edge_members(es, p);
        if members.len() >= 2 && filter_match(f, p.1) {
            rest.push(HyperedgeV {
                label: p.1,
                edge_type: p.0,
                hypertype: "superedge"@,
                value: members,
            })
        } else {
            rest
        }
    }
}

/// Everything the synthesizer derives from a graph: node groups first,
/// then edge groups.
pub open spec fn spec_synthesized(g: GraphV, f: Option<Seq<char>>) -> Seq<HyperedgeV> {
    node_hyperedges(g.nodes, collect_pairs(node_pair_lists(g.nodes)), f)
        + edge_hyperedges(g.edges, collect_pairs(edge_pair_lists(g.edges)), f)
}

/// The view of an optional filter value.
pub open spec fn filter_view(f: Option<String>) -> Option<Seq<char>> {
    match f {
        Some(s) => Some(s@),
        None => None,
    }
}

/// Hyperedge minimum cardinality: every synthesized node-property
/// hyperedge holds at least two members.
pub proof fn lemma_node_hyperedges_min_two(
    ns: Seq<NodeV>,
    pairs: Seq<PropPair>,
    f: Option<Seq<char>>,
)
    ensures
        forall|i: int| 0 <= i < node_hyperedges(ns, pairs, f).len()
            ==> (#[trigger] node_hyperedges(ns, pairs, f)[i]).value.len() >= 2,
    decreases pairs.len(),
{
    if pairs.len() > 0 {
        lemma_node_hyperedges_min_two(ns, pairs.drop_last(), f);
        let rest = node_hyperedges(ns, pairs.drop_last(), f);
        let r = node_hyperedges(ns, pairs, f);
        if r.len() > rest.len() {
            assert(forall|i: int| 0 <= i < rest.len() ==> r[i] == rest[i]);
        }
    }
}

/// Hyperedge minimum cardinality: every synthesized superedge holds at
/// least two members.
pub proof fn lemma_edge_hyperedges_min_two(
    es: Seq<EdgeV>,
    pairs: Seq<PropPair>,
    f: Option<Seq<char>>,
)
    ensures
        forall|i: int| 0 <= i < edge_hyperedges(es, pairs, f).len()
            ==> (#[trigger] edge_hyperedges(es, pairs, f)[i]).value.len() >= 2,
    decreases pairs.len(),
{
    if pairs.len() > 0 {
        lemma_edge_hyperedges_min_two(es, pairs.drop_last(), f);
        let rest = edge_hyperedges(es, pairs.drop_last(), f);
        let r = edge_hyperedges(es, pairs, f);
        if r.len() > rest.len() {
            assert(forall|i: int| 0 <= i < rest.len() ==> r[i] == rest[i]);
        }
    }
}

/// Whether the accumulated pair list already holds the pair.
fn pair_listed(acc: &Vec<(String, String)>, k: &str, v: &str) -> (r: bool)
    ensures
        r == pairs_view(acc@).contains((k@, v@)),
{
    let mut i: usize = 0;
    while i < acc.len()
        invariant
            i <= acc.len(),
            forall|j: int| 0 <= j < i ==> (#[trigger] pairs_view(acc@)[j]) != (k@, v@),
        decreases acc.len() - i,
    {
        if str_eq(acc[i].0.as_str(), k) && str_eq(acc[i].1.as_str(), v) {
            proof {
                assert(pairs_view(acc@)[i as int] == (k@, v@));
            }
            return true;
        }
        i = i + 1;
    }
    proof {
        if pairs_view(acc@).contains((k@, v@)) {
            let j = choose|j: int|
                0 <= j < pairs_view(acc@).len() && pairs_view(acc@)[j] == (k@, v@);
            assert(pairs_view(acc@)[j] != (k@, v@));
        }
    }
    false
}

/// Whether the property map holds the exact pair.
fn props_contain(p: &Properties, k: &str, v: &str) -> (r: bool)
    ensures
        r == p@.pairs.contains((k@, v@)),
{
    let mut i: usize = 0;
    while i < p.other.len()
        invariant
            i <= p.other.len(),
            forall|j: int| 0 <= j < i ==> (#[trigger] p@.pairs[j]) != (k@, v@),
        decreases p.other.len() - i,
    {
        if str_eq(p.other[i].0.as_str(), k) && str_eq(p.other[i].1.as_str(), v) {
            proof {
                assert(p@.pairs[i as int] == (k@, v@));
            }
            return true;
        }
        i = i + 1;
    }
    proof {
        if p@.pairs.contains((k@, v@)) {
            let j = choose|j: int| 0 <= j < p@.pairs.len() && p@.pairs[j] == (k@, v@);
            assert(p@.pairs[j] != (k@, v@));
        }
    }
    false
}

/// Appends one property map's unseen pairs to the accumulator.
fn add_props_pairs(acc: &mut Vec<(String, String)>, p: &Properties)
    ensures
        pairs_view(final(acc)@) == add_new_pairs(pairs_view(old(acc)@), p@.pairs),
{
    let ghost ps = p@.pairs;
    proof {
        assert(ps.take(0) =~= Seq::<(Seq<char>, Seq<char>)>::empty());
    }
    let mut j: usize = 0;
    while j < p.other.len()
        invariant
            j <= p.other.len(),
            ps == p@.pairs,
            pairs_view(acc@) == add_new_pairs(pairs_view(old(acc)@), ps.take(j as int)),
        decreases p.other.len() - j,
    {
        proof {
            assert(ps.take(j + 1).drop_last() =~= ps.take(j as int));
            assert(ps.take(j + 1).last() == (p.other@[j as int].0@, p.other@[j as int].1@));
        }
        if !pair_listed(acc, p.other[j].0.as_str(), p.other[j].1.as_str()) {
            acc.push((p.other[j].0.clone(), p.other[j].1.clone()));
            proof {
                assert(pairs_view(acc@)
                    =~= add_new_pairs(pairs_view(old(acc)@), ps.take(j as int)).push(ps[j as int]));
            }
        }
        j = j + 1;
    }
    proof {
        assert(ps.take(j as int) =~= ps);
    }
}

/// The labels of the nodes carrying the pair, in node order.
fn node_members_exec(nodes: &Vec<Node>, k: &str, v: &str) -> (r: Vec<String>)
    ensures
        strings_view(r@) == node_members(nodes_view(nodes@), (k@, v@)),
{
    let ghost nv = nodes_view(nodes@);
    let mut r: Vec<String> = Vec::new();
    proof {
        assert(strings_view(r@) =~= Seq::<Seq<char>>::empty());
        assert(nv.take(0) =~= Seq::<NodeV>::empty());
    }
    let mut i: usize = 0;
    while i < nodes.len()
        invariant
            i <= nodes.len(),
            nv == nodes_view(nodes@),
            strings_view(r@) == node_members(nv.take(i as int), (k@, v@)),
        decreases nodes.len() - i,
    {
        proof {
            assert(nv.take(i + 1).drop_last() =~= nv.take(i as int));
            assert(nv.take(i + 1).last() == nv[i as int]);
        }
        if props_contain(&nodes[i].properties, k, v) {
            r.push(nodes[i].label.clone());
            proof {
                assert(strings_view(r@)
                    =~= node_members(nv.take(i as int), (k@, v@)).push(nv[i as int].label));
            }
        }
        i = i + 1;
    }
    proof {
        assert(nv.take(i as int) =~= nv);
    }
    r
}

/// The concatenated member identifiers of the edges carrying the pair.
fn edge_members_exec(edges: &Vec<Edge>, k: &str, v: &str) -> (r: Vec<String>)
    ensures
        strings_view(r@) == edge_members(edges_view(edges@), (k@, v@)),
{
    let ghost ev = edges_view(edges@);
    let mut r: Vec<String> = Vec::new();
    proof {
        assert(strings_view(r@) =~= Seq::<Seq<char>>::empty());
        assert(ev.take(0) =~= Seq::<EdgeV>::empty());
    }
    let mut i: usize = 0;
    while i < edges.len()
        invariant
            i <= edges.len(),
            ev == edges_view(edges@),
            strings_view(r@) == edge_members(ev.take(i as int), (k@, v@)),
        decreases edges.len() - i,
    {
        proof {
            assert(ev.take(i + 1).drop_last() =~= ev.take(i as int));
            assert(ev.take(i + 1).last() == ev[i as int]);
        }
        if props_contain(&edges[i].properties, k, v) {
            let member = str_concat(edges[i].source.as_str(), edges[i].target.as_str());
            r.push(member);
            proof {
                assert(strings_view(r@)
                    =~= edge_members(ev.take(i as int), (k@, v@))
                        .push(ev[i as int].source + ev[i as int].target));
            }
        }
        i = i + 1;
    }
    proof {
        assert(ev.take(i as int) =~= ev);
    }
    r
}

/// Whether the filter accepts the group value.
fn filter_accepts(f: &Option<String>, v: &str) -> (r: bool)
    ensures
        r == filter_match(filter_view(*f), v@),
{
    match f {
        None => true,
        Some(s) => str_eq(s.as_str(), v),
    }
}

/// Derives hyperedges from shared property values and appends them to the
/// graph: one `node_property` hyperedge per property pair carried by two
/// or more nodes, then one `superedge` hyperedge per property pair carried
/// by two or more edges, each only when the filter is unset or equals the
/// group's value. Nodes and edges are untouched, and every appended
/// hyperedge holds at least two members.
pub fn add_hyperedges(graph: &mut Graph, filter_property: Option<String>)
    ensures
        final(graph)@.nodes == old(graph)@.nodes,
        final(graph)@.edges == old(graph)@.edges,
        final(graph)@.hyperedges == old(graph)@.hyperedges
            + spec_synthesized(old(graph)@, filter_view(filter_property)),
        forall|i: int| old(graph)@.hyperedges.len() <= i < final(graph)@.hyperedges.len()
            ==> (#[trigger] final(graph)@.hyperedges[i]).value.len() >= 2,
{
    let ghost gv = graph@;
    let ghost f = filter_view(filter_property);

    // Distinct node property pairs, in first-occurrence order.
    let mut node_pairs: Vec<(String, String)> = Vec::new();
    proof {
        assert(pairs_view(node_pairs@) =~= Seq::<(Seq<char>, Seq<char>)>::empty());
        assert(node_pair_lists(gv.nodes).take(0) =~= Seq::<PairSeq>::empty());
    }
    let mut i: usize = 0;
    while i < graph.nodes.len()
        invariant
            i <= graph.nodes.len(),
            graph == old(graph),
            gv == graph@,
            pairs_view(node_pairs@) == collect_pairs(node_pair_lists(gv.nodes).take(i as int)),
        decreases graph.nodes.len() - i,
    {
        proof {
            assert(node_pair_lists(gv.nodes).take(i + 1).drop_last()
                =~= node_pair_lists(gv.nodes).take(i as int));
            assert(node_pair_lists(gv.nodes).take(i + 1).last()
                == gv.nodes[i as int].properties.pairs);
        }
        add_props_pairs(&mut node_pairs, &graph.nodes[i].properties);
        i = i + 1;
    }
    proof {
        assert(node_pair_lists(gv.nodes).take(i as int) =~= node_pair_lists(gv.nodes));
    }

    // Distinct edge property pairs, in first-occurrence order.
    let mut edge_pairs: Vec<(String, String)> = Vec::new();
    proof {
        assert(pairs_view(edge_pairs@) =~= Seq::<(Seq<char>, Seq<char>)>::empty());
        assert(edge_pair_lists(gv.edges).take(0) =~= Seq::<PairSeq>::empty());
    }
    let mut j: usize = 0;
    while j < graph.edges.len()
        invariant
            j <= graph.edges.len(),
            graph == old(graph),
            gv == graph@,
            pairs_view(edge_pairs@) == collect_pairs(edge_pair_lists(gv.edges).take(j as int)),
        decreases graph.edges.len() - j,
    {
        proof {
            assert(edge_pair_lists(gv.edges).take(j + 1).drop_last()
                =~= edge_pair_lists(gv.edges).take(j as int));
            assert(edge_pair_lists(gv.edges).take(j + 1).last()
                == gv.edges[j as int].properties.pairs);
        }
        add_props_pairs(&mut edge_pairs, &graph.edges[j].properties);
        j = j + 1;
    }
    proof {
        assert(edge_pair_lists(gv.edges).take(j as int) =~= edge_pair_lists(gv.edges));
    }

    let ghost npairs = pairs_view(node_pairs@);
    let ghost epairs = pairs_view(edge_pairs@);
    let ghost base = gv.hyperedges;

    // Node-property hyperedges.
    let mut p: usize = 0;
    while p < node_pairs.len()
        invariant
            p <= node_pairs.len(),
            graph.nodes == old(graph).nodes,
            graph.edges == old(graph).edges,
            gv.nodes == nodes_view(graph.nodes@),
            gv.edges == edges_view(graph.edges@),
            npairs == pairs_view(node_pairs@),
            hyperedges_view(graph.hyperedges@)
                == base + node_hyperedges(gv.nodes, npairs.take(p as int), f),
        decreases node_pairs.len() - p,
    {
        proof {
            assert(npairs.take(p + 1).drop_last() =~= npairs.take(p as int));
            assert(npairs.take(p + 1).last()
                == (node_pairs@[p as int].0@, node_pairs@[p as int].1@));
        }
        let members = node_members_exec(
            &graph.nodes,
            node_pairs[p].0.as_str(),
            node_pairs[p].1.as_str(),
        );
        if members.len() >= 2 && filter_accepts(&filter_property, node_pairs[p].1.as_str()) {
            let h = Hyperedge {
                label: node_pairs[p].1.clone(),
                edge_type: node_pairs[p].0.clone(),
                hypertype: "node_property".to_owned(),
                value: members,
            };
            graph.hyperedges.push(h);
            proof {
                assert(hyperedges_view(graph.hyperedges@)
                    =~= (base + node_hyperedges(gv.nodes, npairs.take(p as int), f)).push(
                        node_hyperedges(gv.nodes, npairs.take(p + 1), f).last()));
                assert(base + node_hyperedges(gv.nodes, npairs.take(p + 1), f)
                    =~= (base + node_hyperedges(gv.nodes, npairs.take(p as int), f)).push(
                        node_hyperedges(gv.nodes, npairs.take(p + 1), f).last()));
            }
        }
        p = p + 1;
    }
    proof {
        assert(npairs.take(p as int) =~= npairs);
    }

    // Superedge hyperedges.
    let ghost mid = base + node_hyperedges(gv.nodes, npairs, f);
    let mut q: usize = 0;
    while q < edge_pairs.len()
        invariant
            q <= edge_pairs.len(),
            graph.nodes == old(graph).nodes,
            graph.edges == old(graph).edges,
            gv.nodes == nodes_view(graph.nodes@),
            gv.edges == edges_view(graph.edges@),
            epairs == pairs_view(edge_pairs@),
            hyperedges_view(graph.hyperedges@)
                == mid + edge_hyperedges(gv.edges, epairs.take(q as int), f),
        decreases edge_pairs.len() - q,
    {
        proof {
            assert(epairs.take(q + 1).drop_last() =~= epairs.take(q as int));
            assert(epairs.take(q + 1).last()
                == (edge_pairs@[q as int].0@, edge_pairs@[q as int].1@));
        }
        let members = edge_members_exec(
            &graph.edges,
            edge_pairs[q].0.as_str(),
            edge_pairs[q].1.as_str(),
        );
        if members.len() >= 2 && filter_accepts(&filter_property, edge_pairs[q].1.as_str()) {
            let h = Hyperedge {
                label: edge_pairs[q].1.clone(),
                edge_type: edge_pairs[q].0.clone(),
                hypertype: "superedge".to_owned(),
                value: members,
            };
            graph.hyperedges.push(h);
            proof {
                assert(mid + edge_hyperedges(gv.edges, epairs.take(q + 1), f)
                    =~= (mid + edge_hyperedges(gv.edges, epairs.take(q as int), f)).push(
                        edge_hyperedges(gv.edges, epairs.take(q + 1), f).last()));
                assert(hyperedges_view(graph.hyperedges@)
                    =~= (mid + edge_hyperedges(gv.edges, epairs.take(q as int), f)).push(
                        edge_hyperedges(gv.edges, epairs.take(q + 1), f).last()));
            }
        }
        q = q + 1;
    }
    proof {
        assert(epairs.take(q as int) =~= epairs);
        assert(hyperedges_view(graph.hyperedges@)
            =~= base + spec_synthesized(gv, f));
        lemma_node_hyperedges_min_two(gv.nodes, npairs, f);
        lemma_edge_hyperedges_min_two(gv.edges, epairs, f);
        assert(forall|i: int| base.len() <= i < hyperedges_view(graph.hyperedges@).len()
            ==> (#[trigger] hyperedges_view(graph.hyperedges@)[i]).value.len() >= 2) by {
            let all = hyperedges_view(graph.hyperedges@);
            let nh = node_hyperedges(gv.nodes, npairs, f);
            let eh = edge_hyperedges(gv.edges, epairs, f);
            assert(forall|i: int| base.len() <= i < all.len() ==> #[trigger] all[i]
                == if i < base.len() + nh.len() { nh[i - base.len()] }
                    else { eh[i - base.len() - nh.len()] });
        };
    }
}

} // verus!
