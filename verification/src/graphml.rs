//! The GraphML/Maltego parser: a state machine over a stream of XML
//! events, producing canonical nodes and edges.
//!
//! Tokenizing the raw bytes into start tags (with attributes), text and end
//! tags is delegated to an XML reader and trusted; everything the format
//! means — pending nodes and edges, the active property name, label and
//! type overwrite rules, the longest-value fallback, dropping edges with an
//! empty endpoint — is the verified state machine in this module.
//!
//! A node begins at a `node` start tag carrying an `id` attribute; all its
//! attributes enter its property map. Named properties (`mtg:Property`
//! elements) add text values under the active name; an address-like name
//! (`ipv4-address*`, `email.address*`, `domain*`) overwrites label and
//! type, the names `name` and `label` overwrite the label alone. At the
//! node's end, while its type is still `unknown`, the scan of its
//! accumulated pairs promotes any value longer than the current label to
//! label, with its key as type. An edge begins at an `edge` start tag;
//! `source`, `target` and `label` attributes fill its endpoints and
//! relation (`linked_to` when absent), and an edge missing an endpoint is
//! dropped at its end tag.

use vstd::prelude::*;
use crate::types::{
    Node, NodeV, Edge, EdgeV, Properties, PairSeq,
    pairs_view, nodes_view, edges_view,
    assoc_get, assoc_insert, spec_map_values,
};
use crate::strutil::{str_eq, str_starts_with, seq_starts_with};
use crate::error::GraphError;

verus! {

/// One event of the XML token stream: a start tag with its decoded
/// attributes, a text run, or an end tag.
pub enum XmlEvent {
    Start(String, Vec<(String, String)>),
    Text(String),
    End(String),
}

/// The model of an XML event.
#[verifier::ext_equal]
pub ghost enum XmlEventV {
    Start { name: Seq<char>, attrs: PairSeq },
    Text { text: Seq<char> },
    End { name: Seq<char> },
}

/// The model of one event.
pub open spec fn xml_event_view(e: XmlEvent) -> XmlEventV {
    match e {
        XmlEvent::Start(n, a) => XmlEventV::Start { name: n@, attrs: pairs_view(a@) },
        XmlEvent::Text(t) => XmlEventV::Text { text: t@ },
        XmlEvent::End(n) => XmlEventV::End { name: n@ },
    }
}

/// The model of an event stream.
pub open spec fn events_view(s: Seq<XmlEvent>) -> Seq<XmlEventV> {
    Seq::new(s.len(), |i: int| xml_event_view(s[i]))
}

/// A node being read: its label and type so far, and its accumulated
/// property pairs (attributes and named properties).
#[verifier::ext_equal]
pub ghost struct PendingNodeV {
    pub label: Seq<char>,
    pub node_type: Seq<char>,
    pub pairs: PairSeq,
}

/// An edge being read.
#[verifier::ext_equal]
pub ghost struct PendingEdgeV {
    pub source: Seq<char>,
    pub target: Seq<char>,
    pub relation_type: Seq<char>,
    pub pairs: PairSeq,
}

/// The parser's whole state: what was emitted and what is pending.
#[verifier::ext_equal]
pub ghost struct MachineV {
    pub nodes: Seq<NodeV>,
    pub edges: Seq<EdgeV>,
    pub pending_node: Option<PendingNodeV>,
    pub pending_edge: Option<PendingEdgeV>,
    pub prop_name: Option<Seq<char>>,
}

/// The state before any event.
pub open spec fn init_state() -> MachineV {
    MachineV {
        nodes: Seq::empty(),
        edges: Seq::empty(),
        pending_node: None,
        pending_edge: None,
        prop_name: None,
    }
}

/// Attributes written into a map in order; a repeated name overwrites.
pub open spec fn attrs_fold(ps: PairSeq) -> PairSeq
    decreases ps.len(),
{
    if ps.len() == 0 {
        Seq::empty()
    } else {
        assoc_insert(attrs_fold(ps.drop_last()), ps.last().0, ps.last().1)
    }
}

/// The value under a key, or the empty string.
pub open spec fn get_or_empty(ps: PairSeq, k: Seq<char>) -> Seq<char> {
    match assoc_get(ps, k) {
        Some(v) => v,
        None => Seq::empty(),
    }
}

/// The longest-value fallback: every pair whose value is longer than the
/// label seen so far promotes its value to label and its key to type.
pub open spec fn fallback_scan(ps: PairSeq, label: Seq<char>, ntype: Seq<char>) -> (
    Seq<char>,
    Seq<char>,
)
    decreases ps.len(),
{
    if ps.len() == 0 {
        (label, ntype)
    } else {
        let prev = fallback_scan(ps.drop_last(), label, ntype);
        if ps.last().1.len() > prev.0.len() {
            (ps.last().1, ps.last().0)
        } else {
            prev
        }
    }
}

/// The emitted node of a pending node: the fallback scan runs while the
/// type is still `unknown`, the pairs become the property map, and the
/// numeric id derives from the `id` pair.
pub open spec fn finalize_node(pn: PendingNodeV) -> NodeV {
    let lt = if pn.node_type == "unknown"@ {
        fallback_scan(pn.pairs, pn.label, pn.node_type)
    } else {
        (pn.label, pn.node_type)
    };
    let props = spec_map_values(pn.pairs);
    NodeV { id: props.id, label: lt.0, node_type: lt.1, properties: props }
}

/// The emitted edge of a pending edge.
pub open spec fn finalize_edge(pe: PendingEdgeV) -> EdgeV {
    EdgeV {
        source: pe.source,
        target: pe.target,
        relation_type: pe.relation_type,
        properties: spec_map_values(pe.pairs),
    }
}

/// A text run landing in a pending node: the pair is written, and the
/// property name may overwrite label and type.
pub open spec fn node_text(pn: PendingNodeV, nm: Seq<char>, text: Seq<char>) -> PendingNodeV {
    let pairs = assoc_insert(pn.pairs, nm, text);
    if seq_starts_with(nm, "ipv4-address"@) || seq_starts_with(nm, "email.address"@)
        || seq_starts_with(nm, "domain"@) {
        PendingNodeV { label: text, node_type: nm, pairs }
    } else if nm == "name"@ || nm == "label"@ {
        PendingNodeV { label: text, node_type: pn.node_type, pairs }
    } else {
        PendingNodeV { label: pn.label, node_type: pn.node_type, pairs }
    }
}

/// One step of the state machine.
pub open spec fn step(st: MachineV, ev: XmlEventV) -> MachineV {
    match ev {
        XmlEventV::Start { name, attrs } => {
            if name == "node"@ {
                let ps = attrs_fold(attrs);
                if assoc_get(ps, "id"@) is Some {
                    MachineV {
                        pending_node: Some(PendingNodeV {
                            label: "Unnamed Node"@,
                            node_type: "unknown"@,
                            pairs: ps,
                        }),
                        ..st
                    }
                } else {
                    st
                }
            } else if name == "edge"@ {
                let ps = attrs_fold(attrs);
                let rel = get_or_empty(ps, "label"@);
                MachineV {
                    pending_edge: Some(PendingEdgeV {
                        source: get_or_empty(ps, "source"@),
                        target: get_or_empty(ps, "target"@),
                        relation_type: if rel.len() == 0 { "linked_to"@ } else { rel },
                        pairs: ps,
                    }),
                    ..st
                }
            } else if name == "mtg:Property"@ {
                match assoc_get(attrs_fold(attrs), "name"@) {
                    Some(nm) => MachineV { prop_name: Some(nm), ..st },
                    None => st,
                }
            } else {
                st
            }
        },
        XmlEventV::Text { text } => match st.prop_name {
            None => st,
            Some(nm) => match st.pending_node {
                Some(pn) => MachineV { pending_node: Some(node_text(pn, nm, text)), ..st },
                None => match st.pending_edge {
                    Some(pe) => MachineV {
                        pending_edge: Some(PendingEdgeV {
                            pairs: assoc_insert(pe.pairs, nm, text),
                            ..pe
                        }),
                        ..st
                    },
                    None => st,
                },
            },
        },
        XmlEventV::End { name } => {
            let st1 = if name == "node"@ && st.pending_node is Some {
                MachineV {
                    nodes: st.nodes.push(finalize_node(st.pending_node.unwrap())),
                    pending_node: None,
                    ..st
                }
            } else if name == "edge"@ && st.pending_edge is Some {
                let pe = st.pending_edge.unwrap();
                if pe.source.len() == 0 || pe.target.len() == 0 {
                    MachineV { pending_edge: None, ..st }
                } else {
                    MachineV { edges: st.edges.push(finalize_edge(pe)), pending_edge: None, ..st }
                }
            } else {
                st
            };
            MachineV { prop_name: None, ..st1 }
        },
    }
}

/// The machine run over an event stream, left to right.
pub open spec fn run(st: MachineV, evs: Seq<XmlEventV>) -> MachineV
    decreases evs.len(),
{
    if evs.len() == 0 {
        st
    } else {
        step(run(st, evs.drop_last()), evs.last())
    }
}

/// A node being read, in executable form.
pub struct PendingNode {
    pub label: String,
    pub node_type: String,
    pub props: Properties,
}

/// An edge being read, in executable form.
pub struct PendingEdge {
    pub source: String,
    pub target: String,
    pub relation_type: String,
    pub props: Properties,
}

/// The model of an optional pending node.
pub open spec fn pending_node_view(o: Option<PendingNode>) -> Option<PendingNodeV> {
    match o {
        Some(pn) => Some(PendingNodeV {
            label: pn.label@,
            node_type: pn.node_type@,
            pairs: pn.props@.pairs,
        }),
        None => None,
    }
}

/// The model of an optional pending edge.
pub open spec fn pending_edge_view(o: Option<PendingEdge>) -> Option<PendingEdgeV> {
    match o {
        Some(pe) => Some(PendingEdgeV {
            source: pe.source@,
            target: pe.target@,
            relation_type: pe.relation_type@,
            pairs: pe.props@.pairs,
        }),
        None => None,
    }
}

/// The model of an optional property name.
pub open spec fn prop_name_view(o: Option<String>) -> Option<Seq<char>> {
    match o {
        Some(s) => Some(s@),
        None => None,
    }
}

/// The machine state the executable parser variables stand for.
pub open spec fn state_of(
    nodes: Seq<Node>,
    edges: Seq<Edge>,
    cur_node: Option<PendingNode>,
    cur_edge: Option<PendingEdge>,
    prop_name: Option<String>,
) -> MachineV {
    MachineV {
        nodes: nodes_view(nodes),
        edges: edges_view(edges),
        pending_node: pending_node_view(cur_node),
        pending_edge: pending_edge_view(cur_edge),
        prop_name: prop_name_view(prop_name),
    }
}

/// Folds decoded attributes into a property map.
fn attrs_to_props(attrs: &Vec<(String, String)>) -> (p: Properties)
    ensures
        p@.pairs == attrs_fold(pairs_view(attrs@)),
        p@.id is None,
{
    let ghost av = pairs_view(attrs@);
    let mut p = Properties::new();
    proof {
        assert(av.take(0) =~= Seq::<(Seq<char>, Seq<char>)>::empty());
        assert(p@.pairs == attrs_fold(av.take(0)));
    }
    let mut i: usize = 0;
    while i < attrs.len()
        invariant
            i <= attrs.len(),
            av == pairs_view(attrs@),
            p@.pairs == attrs_fold(av.take(i as int)),
            p@.id is None,
        decreases attrs.len() - i,
    {
        proof {
            assert(av.take(i + 1).drop_last() =~= av.take(i as int));
            assert(av.take(i + 1).last() == (attrs@[i as int].0@, attrs@[i as int].1@));
        }
        p.insert(attrs[i].0.clone(), attrs[i].1.clone());
        i = i + 1;
    }
    proof {
        assert(av.take(i as int) =~= av);
    }
    p
}

/// Runs the longest-value fallback over the accumulated pairs.
fn scan_fallback(p: &Properties, label: String, ntype: String) -> (r: (String, String))
    ensures
        (r.0@, r.1@) == fallback_scan(p@.pairs, label@, ntype@),
{
    let ghost ps = p@.pairs;
    let ghost l0 = label@;
    let ghost t0 = ntype@;
    let mut best_label = label;
    let mut best_type = ntype;
    proof {
        assert(ps.take(0) =~= Seq::<(Seq<char>, Seq<char>)>::empty());
    }
    let mut i: usize = 0;
    while i < p.other.len()
        invariant
            i <= p.other.len(),
            ps == p@.pairs,
            (best_label@, best_type@) == fallback_scan(ps.take(i as int), l0, t0),
        decreases p.other.len() - i,
    {
        proof {
            assert(ps.take(i + 1).drop_last() =~= ps.take(i as int));
            assert(ps.take(i + 1).last() == (p.other@[i as int].0@, p.other@[i as int].1@));
        }
        let value_len = p.other[i].1.as_str().unicode_len();
        let label_len = best_label.as_str().unicode_len();
        if value_len > label_len {
            best_label = p.other[i].1.clone();
            best_type = p.other[i].0.clone();
        }
        i = i + 1;
    }
    proof {
        assert(ps.take(i as int) =~= ps);
    }
    (best_label, best_type)
}

/// Applies one XML event to the parser state.
#[verifier::rlimit(60)]
fn apply_event(
    nodes: &mut Vec<Node>,
    edges: &mut Vec<Edge>,
    cur_node: &mut Option<PendingNode>,
    cur_edge: &mut Option<PendingEdge>,
    prop_name: &mut Option<String>,
    ev: &XmlEvent,
)
    ensures
        state_of(final(nodes)@, final(edges)@, *final(cur_node), *final(cur_edge), *final(prop_name))
            == step(
            state_of(old(nodes)@, old(edges)@, *old(cur_node), *old(cur_edge), *old(prop_name)),
            xml_event_view(*ev),
        ),
{
    let ghost st = state_of(nodes@, edges@, *cur_node, *cur_edge, *prop_name);
    let ghost next = step(st, xml_event_view(*ev));
    proof {
        reveal_strlit("node");
        reveal_strlit("edge");
        reveal_strlit("mtg:Property");
        assert("node"@ != "edge"@) by {
            assert("node"@[0] == 'n');
            assert("edge"@[0] == 'e');
        };
        assert("node"@ != "mtg:Property"@) by {
            assert("node"@.len() == 4);
            assert("mtg:Property"@.len() == 12);
        };
        assert("edge"@ != "mtg:Property"@) by {
            assert("edge"@.len() == 4);
            assert("mtg:Property"@.len() == 12);
        };
    }
    match ev {
        XmlEvent::Start(name, attrs) => {
            if str_eq(name.as_str(), "node") {
                let props = attrs_to_props(attrs);
                let has_id = props.get("id").is_some();
                if has_id {
                    *cur_node = Some(PendingNode {
                        label: "Unnamed Node".to_owned(),
                        node_type: "unknown".to_owned(),
                        props,
                    });
                }
            } else if str_eq(name.as_str(), "edge") {
                let props = attrs_to_props(attrs);
                let source = match props.get("source") {
                    Some(s) => s.clone(),
                    None => String::new(),
                };
                let target = match props.get("target") {
                    Some(s) => s.clone(),
                    None => String::new(),
                };
                let rel = match props.get("label") {
                    Some(s) => s.clone(),
                    None => String::new(),
                };
                let relation_type = if rel.as_str().is_empty() {
                    "linked_to".to_owned()
                } else {
                    rel
                };
                *cur_edge = Some(PendingEdge { source, target, relation_type, props });
            } else if str_eq(name.as_str(), "mtg:Property") {
                let props = attrs_to_props(attrs);
                match props.get("name") {
                    Some(nm) => {
                        *prop_name = Some(nm.clone());
                    },
                    None => {},
                }
            }
            proof {
                assert(state_of(nodes@, edges@, *cur_node, *cur_edge, *prop_name) =~= next);
            }
        },
        XmlEvent::Text(text) => {
            let has_name = prop_name.is_some();
            if has_name {
                let nm = match prop_name {
                    Some(n) => n.clone(),
                    None => String::new(),
                };
                let node_pending = cur_node.is_some();
                if node_pending {
                    let taken = cur_node.take();
                    match taken {
                        Some(pn) => {
                            let mut pn = pn;
                            pn.props.insert(nm.clone(), text.clone());
                            if str_starts_with(nm.as_str(), "ipv4-address")
                                || str_starts_with(nm.as_str(), "email.address")
                                || str_starts_with(nm.as_str(), "domain") {
                                pn.label = text.clone();
                                pn.node_type = nm.clone();
                            } else if str_eq(nm.as_str(), "name")
                                || str_eq(nm.as_str(), "label") {
                                pn.label = text.clone();
                            }
                            *cur_node = Some(pn);
                        },
                        None => {},
                    }
                } else {
                    let taken = cur_edge.take();
                    match taken {
                        Some(pe) => {
                            let mut pe = pe;
                            pe.props.insert(nm.clone(), text.clone());
                            *cur_edge = Some(pe);
                        },
                        None => {},
                    }
                }
            }
            proof {
                assert(state_of(nodes@, edges@, *cur_node, *cur_edge, *prop_name) =~= next);
            }
        },
        XmlEvent::End(name) => {
            if str_eq(name.as_str(), "node") {
                let taken = cur_node.take();
                match taken {
                    Some(pn) => {
                        let needs_scan = str_eq(pn.node_type.as_str(), "unknown");
                        let (label, ntype) = if needs_scan {
                            scan_fallback(&pn.props, pn.label, pn.node_type)
                        } else {
                            (pn.label, pn.node_type)
                        };
                        let props = Properties::map_values(pn.props.other);
                        let id = props.get_id();
                        let n = Node { id, label, node_type: ntype, properties: props };
                        nodes.push(n);
                        proof {
                            assert(nodes_view(nodes@) =~= st.nodes.push(
                                finalize_node(st.pending_node.unwrap())));
                        }
                    },
                    None => {},
                }
            } else if str_eq(name.as_str(), "edge") {
                let taken = cur_edge.take();
                match taken {
                    Some(pe) => {
                        if pe.source.as_str().is_empty() || pe.target.as_str().is_empty() {
                            // The edge lacks an endpoint: drop it and go on.
                        } else {
                            let props = Properties::map_values(pe.props.other);
                            let e = Edge {
                                source: pe.source,
                                target: pe.target,
                                relation_type: pe.relation_type,
                                properties: props,
                            };
                            edges.push(e);
                            proof {
                                assert(edges_view(edges@) =~= st.edges.push(
                                    finalize_edge(st.pending_edge.unwrap())));
                            }
                        }
                    },
                    None => {},
                }
            }
            *prop_name = None;
            proof {
                assert(state_of(nodes@, edges@, *cur_node, *cur_edge, *prop_name) =~= next);
            }
        },
    }
}

/// Runs the verified state machine over a token stream, producing the
/// emitted nodes and edges in document order.
pub fn build_graph_from_events(events: &Vec<XmlEvent>) -> (r: (Vec<Node>, Vec<Edge>))
    ensures
        nodes_view(r.0@) == run(init_state(), events_view(events@)).nodes,
        edges_view(r.1@) == run(init_state(), events_view(events@)).edges,
{
    let ghost evs = events_view(events@);
    let mut nodes: Vec<Node> = Vec::new();
    let mut edges: Vec<Edge> = Vec::new();
    let mut cur_node: Option<PendingNode> = None;
    let mut cur_edge: Option<PendingEdge> = None;
    let mut prop_name: Option<String> = None;
    proof {
        assert(evs.take(0) =~= Seq::<XmlEventV>::empty());
        assert(state_of(nodes@, edges@, cur_node, cur_edge, prop_name)
            =~= init_state());
    }
    let mut i: usize = 0;
    while i < events.len()
        invariant
            i <= events.len(),
            evs == events_view(events@),
            state_of(nodes@, edges@, cur_node, cur_edge, prop_name)
                == run(init_state(), evs.take(i as int)),
        decreases events.len() - i,
    {
        proof {
            assert(evs.take(i + 1).drop_last() =~= evs.take(i as int));
            assert(evs.take(i + 1).last() == xml_event_view(events@[i as int]));
        }
        apply_event(&mut nodes, &mut edges, &mut cur_node, &mut cur_edge, &mut prop_name,
            &events[i]);
        i = i + 1;
    }
    proof {
        assert(evs.take(i as int) =~= evs);
        assert(nodes_view(nodes@) == run(init_state(), evs).nodes);
        assert(edges_view(edges@) == run(init_state(), evs).edges);
    }
    (nodes, edges)
}

// ---------------------------------------------------------------------
// Tokenizing, and the parser entry point
// ---------------------------------------------------------------------

/// The XML reader's borrowed start-tag value.
#[verifier::external_type_specification]
#[verifier::external_body]
pub struct ExBytesStart<'a>(quick_xml::events::BytesStart<'a>);

/// The XML reader's raw event value.
#[verifier::external_type_specification]
#[verifier::external_body]
pub struct ExEvent<'a>(quick_xml::events::Event<'a>);

/// The token stream an XML document tokenizes to, or nothing when the
/// document cannot be tokenized. The stream is a function of the bytes
/// alone.
pub uninterp spec fn xml_events_of(data: Seq<u8>) -> Option<Seq<XmlEventV>>;

/// Relies on quick_xml::events::BytesStart::name/attributes and
/// Attribute::unescape_value: converts one start tag into its name and
/// decoded, unescaped attributes.
#[verifier::external_body]
fn start_event(e: &quick_xml::events::BytesStart) -> (r: Result<XmlEvent, GraphError>)
    ensures
        match r {
            Ok(ev) => ev is Start,
            Err(g) => g == GraphError::MalformedXml,
        },
{
    let name = e.name().as_ref().to_owned();
    let mut attrs: Vec<(String, String)> = Vec::new();
    for a in e.attributes() {
        let a = a.map_err(|_| GraphError::MalformedXml)?;
        let key = a.key.as_ref().to_owned();
        let value = a.unescape_value().map_err(|_| GraphError::MalformedXml)?.into_owned();
        attrs.push((key, value));
    }
    Ok(XmlEvent::Start(name, attrs))
}

/// Relies on quick_xml::escape::unescape and str::trim: trims one
/// buffered text run, resolves its entity and character references, and
/// emits it as a text event; a whitespace-only run emits nothing.
#[verifier::external_body]
fn push_text(out: &mut Vec<XmlEvent>, buf: &mut String) -> (r: Result<(), GraphError>)
    ensures
        match r {
            Ok(u) => final(buf)@.len() == 0,
            Err(g) => g == GraphError::MalformedXml,
        },
{
    let trimmed = buf.trim();
    if !trimmed.is_empty() {
        match quick_xml::escape::unescape(trimmed) {
            Ok(v) => out.push(XmlEvent::Text(v.into_owned())),
            Err(_) => return Err(GraphError::MalformedXml),
        }
    }
    buf.clear();
    Ok(())
}

/// Relies on quick_xml::events::Event: folds one raw reader event into
/// the token stream. Start and end tags flush the buffered text run first;
/// text and reference events extend the buffer; everything else is
/// ignored. Returns whether the document ended.
#[verifier::external_body]
fn consume_event(ev: quick_xml::events::Event, out: &mut Vec<XmlEvent>, buf: &mut String) -> (r:
    Result<bool, GraphError>)
    ensures
        match r {
            Ok(eof) => eof ==> final(buf)@.len() == 0,
            Err(g) => g == GraphError::MalformedXml,
        },
{
    match ev {
        quick_xml::events::Event::Start(e) => { push_text(out, buf)?; out.push(start_event(&e)?); Ok(false) },
        quick_xml::events::Event::Text(t) => { buf.push_str(t.as_ref()); Ok(false) },
        quick_xml::events::Event::GeneralRef(r) => { buf.push('&'); buf.push_str(r.as_ref()); buf.push(';'); Ok(false) },
        quick_xml::events::Event::End(e) => { push_text(out, buf)?; out.push(XmlEvent::End(e.name().as_ref().to_owned())); Ok(false) },
        quick_xml::events::Event::Eof => { push_text(out, buf)?; Ok(true) },
        _ => Ok(false),
    }
}

/// Relies on quick_xml::reader::Reader: tokenizes an XML document into
/// start tags, unescaped text runs and end tags, in document order; each
/// text run is trimmed, and whitespace-only runs are dropped. The result
/// is a function of the bytes alone; any reader error reads as a
/// malformed document.
#[verifier::external_body]
fn xml_tokenize(data: &[u8]) -> (r: Result<Vec<XmlEvent>, GraphError>)
    ensures
        match r {
            Ok(evs) => xml_events_of(data@) == Some(events_view(evs@)),
            Err(g) => xml_events_of(data@) is None && g == GraphError::MalformedXml,
        },
{
    let mut reader = quick_xml::reader::Reader::from_reader(data);
    let mut out: Vec<XmlEvent> = Vec::new();
    let mut buf = String::new();
    loop {
        match reader.read_event() {
            Ok(ev) => {
                if consume_event(ev, &mut out, &mut buf)? {
                    return Ok(out);
                }
            },
            Err(_) => return Err(GraphError::MalformedXml),
        }
    }
}

/// The document opens with a UTF-16 or UTF-32 byte-order mark: its
/// declared encoding is not ASCII-compatible.
pub open spec fn wide_bom(d: Seq<u8>) -> bool {
    (d.len() >= 2 && ((d[0] == 0xffu8 && d[1] == 0xfeu8) || (d[0] == 0xfeu8 && d[1] == 0xffu8)))
        || (d.len() >= 4 && d[0] == 0u8 && d[1] == 0u8 && d[2] == 0xfeu8 && d[3] == 0xffu8)
}

/// Whether the document opens with a wide byte-order mark.
fn has_wide_bom(data: &[u8]) -> (r: bool)
    ensures
        r == wide_bom(data@),
{
    if data.len() >= 2 {
        let b0 = data[0];
        let b1 = data[1];
        if (b0 == 0xffu8 && b1 == 0xfeu8) || (b0 == 0xfeu8 && b1 == 0xffu8) {
            return true;
        }
        if data.len() >= 4 && b0 == 0u8 && b1 == 0u8 && data[2] == 0xfeu8 && data[3] == 0xffu8 {
            return true;
        }
        false
    } else {
        false
    }
}

/// Parses a GraphML/Maltego XML document into canonical nodes and edges.
///
/// A document opening with a non-ASCII-compatible byte-order mark is
/// rejected outright; one that cannot be tokenized is a malformed-XML
/// error; otherwise the result is the verified state machine's output on
/// the document's token stream.
pub fn parse_graphml(data: &[u8]) -> (r: Result<(Vec<Node>, Vec<Edge>), GraphError>)
    ensures
        match r {
            Ok(out) => !wide_bom(data@) && xml_events_of(data@) is Some
                && nodes_view(out.0@) == run(init_state(), xml_events_of(data@).unwrap()).nodes
                && edges_view(out.1@) == run(init_state(), xml_events_of(data@).unwrap()).edges,
            Err(e) => match e {
                GraphError::UnsupportedEncoding => wide_bom(data@),
                GraphError::MalformedXml => !wide_bom(data@) && xml_events_of(data@) is None,
                _ => false,
            },
        },
{
    if has_wide_bom(data) {
        return Err(GraphError::UnsupportedEncoding);
    }
    let events = match xml_tokenize(data) {
        Ok(evs) => evs,
        Err(e) => {
            return Err(e);
        },
    };
    let out = build_graph_from_events(&events);
    Ok(out)
}

} // verus!
