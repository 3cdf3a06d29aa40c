//! The threat-report mapper: converts a nested verdict/relationship JSON
//! document into canonical nodes and edges.
//!
//! The document's one required field is `identity_and_verdict.threat.query`;
//! it becomes the root node, typed `threat`, with properties read from the
//! optional `whois` text (newline-separated `key: value` lines, split on the
//! first `": "` of each line). Every optional related-item category adds one
//! node per identifier plus one edge from the root; each `resolves_to` entry
//! adds a domain node, an IP node and a `resolves_to` edge between them (not
//! touching the root); each DNS record adds a node typed `dns` holding the
//! record's value, with the record type under the `record_type` property,
//! and a `has_dns` edge from the root. Nodes are labeled by their
//! identifier, so every emitted edge names two emitted nodes. The mapper
//! never deduplicates: repeated identifiers yield repeated nodes, and
//! deduplication belongs to the graph merger alone. Optional sections that
//! do not hold their expected shape are read as absent; only a missing or
//! unreadable query is an error.

use vstd::prelude::*;
use crate::types::{
    Node, NodeV, Edge, EdgeV, Properties, PropertiesV, PairSeq, empty_props,
    pairs_view, strings_view, nodes_view, edges_view,
    spec_id_from_str, spec_map_values,
};
use crate::strutil::{str_chars, chars_to_string};
use crate::error::GraphError;

verus! {

/// A DNS record of the report: a record type and its value.
#[derive(Debug)]
pub struct DnsRecord {
    pub record_type: String,
    pub value: String,
}

/// One `resolves_to` entry of the report: a domain and the IP it
/// resolves to.
#[derive(Debug)]
pub struct ResolveRelationship {
    pub domain: String,
    pub ip: String,
}

/// The optional related-item categories of the report.
#[derive(Debug)]
pub struct RelatedItems {
    pub communicating_files: Option<Vec<String>>,
    pub contacted_ips: Option<Vec<String>>,
    pub contacted_domains: Option<Vec<String>>,
    pub resolves_to: Option<Vec<ResolveRelationship>>,
}

/// The report's activity section: related items and DNS records.
#[derive(Debug)]
pub struct ActivityAndRelationships {
    pub related_items: RelatedItems,
    pub dns: Option<Vec<DnsRecord>>,
}

/// A decoded threat report: the queried indicator, the raw whois text,
/// and the optional activity section.
#[derive(Debug)]
pub struct ThreatReport {
    pub query: String,
    pub whois: Option<String>,
    pub activity: Option<ActivityAndRelationships>,
}

/// The model of a threat report, with the activity section flattened:
/// an absent section and an absent activity read the same.
pub ghost struct ReportV {
    pub query: Seq<char>,
    pub whois: Option<Seq<char>>,
    pub communicating_files: Option<Seq<Seq<char>>>,
    pub contacted_ips: Option<Seq<Seq<char>>>,
    pub contacted_domains: Option<Seq<Seq<char>>>,
    pub resolves_to: Option<Seq<(Seq<char>, Seq<char>)>>,
    pub dns: Option<Seq<(Seq<char>, Seq<char>)>>,
}

/// The model of an optional string.
pub open spec fn opt_string_view(o: Option<String>) -> Option<Seq<char>> {
    match o {
        Some(s) => Some(s@),
        None => None,
    }
}

/// The model of an optional string list.
pub open spec fn opt_strings_view(o: Option<Vec<String>>) -> Option<Seq<Seq<char>>> {
    match o {
        Some(v) => Some(strings_view(v@)),
        None => None,
    }
}

/// The model of a resolution list: (domain, ip) pairs.
pub open spec fn resolves_view(v: Seq<ResolveRelationship>) -> Seq<(Seq<char>, Seq<char>)> {
    Seq::new(v.len(), |i: int| (v[i].domain@, v[i].ip@))
}

/// The model of a DNS record list: (record type, value) pairs.
pub open spec fn dns_view(v: Seq<DnsRecord>) -> Seq<(Seq<char>, Seq<char>)> {
    Seq::new(v.len(), |i: int| (v[i].record_type@, v[i].value@))
}

impl View for ThreatReport {
    type V = ReportV;

    open spec fn view(&self) -> ReportV {
        ReportV {
            query: self.query@,
            whois: opt_string_view(self.whois),
            communicating_files: match self.activity {
                Some(a) => opt_strings_view(a.related_items.communicating_files),
                None => None,
            },
            contacted_ips: match self.activity {
                Some(a) => opt_strings_view(a.related_items.contacted_ips),
                None => None,
            },
            contacted_domains: match self.activity {
                Some(a) => opt_strings_view(a.related_items.contacted_domains),
                None => None,
            },
            resolves_to: match self.activity {
                Some(a) => match a.related_items.resolves_to {
                    Some(rs) => Some(resolves_view(rs@)),
                    None => None,
                },
                None => None,
            },
            dns: match self.activity {
                Some(a) => match a.dns {
                    Some(ds) => Some(dns_view(ds@)),
                    None => None,
                },
                None => None,
            },
        }
    }
}

// ---------------------------------------------------------------------
// Whois text splitting
// ---------------------------------------------------------------------

/// A line with its trailing carriage return removed.
pub open spec fn strip_cr(line: Seq<char>) -> Seq<char> {
    if line.len() > 0 && line.last() == '\r' {
        line.drop_last()
    } else {
        line
    }
}

/// The completed lines and the trailing partial line of a text, reading
/// `\n` (or `\r\n`) as a line ending.
pub open spec fn lines_state(s: Seq<char>) -> (Seq<Seq<char>>, Seq<char>)
    decreases s.len(),
{
    if s.len() == 0 {
        (Seq::empty(), Seq::empty())
    } else {
        let prev = lines_state(s.drop_last());
        if s.last() == '\n' {
            (prev.0.push(strip_cr(prev.1)), Seq::empty())
        } else {
            (prev.0, prev.1.push(s.last()))
        }
    }
}

/// The lines of a text, as `str::lines` reads them: a final line without
/// a line ending counts, a final empty segment does not.
pub open spec fn spec_lines(s: Seq<char>) -> Seq<Seq<char>> {
    let st = lines_state(s);
    if st.1.len() == 0 {
        st.0
    } else {
        st.0.push(st.1)
    }
}

/// A line split at its first `": "` occurrence, if it has one.
pub open spec fn spec_split_kv(line: Seq<char>) -> Option<(Seq<char>, Seq<char>)>
    decreases line.len(),
{
    if line.len() < 2 {
        None
    } else if line[0] == ':' && line[1] == ' ' {
        Some((Seq::empty(), line.skip(2)))
    } else {
        match spec_split_kv(line.skip(1)) {
            Some(kv) => Some((seq![line[0]] + kv.0, kv.1)),
            None => None,
        }
    }
}

/// The key/value pairs of the lines that split, in line order.
pub open spec fn spec_kv_pairs(lines: Seq<Seq<char>>) -> PairSeq
    decreases lines.len(),
{
    if lines.len() == 0 {
        Seq::empty()
    } else {
        let rest = spec_kv_pairs(lines.drop_last());
        match spec_split_kv(lines.last()) {
            Some(kv) => rest.push(kv),
            None => rest,
        }
    }
}

/// The key/value pairs read out of a whois text.
pub open spec fn spec_whois_pairs(s: Seq<char>) -> PairSeq {
    spec_kv_pairs(spec_lines(s))
}

/// The lines of a vector of character vectors.
pub open spec fn char_lines_view(v: Seq<Vec<char>>) -> Seq<Seq<char>> {
    Seq::new(v.len(), |i: int| v[i]@)
}

/// A line whose first `": "` sits at position `i` splits there.
proof fn lemma_split_kv_at(line: Seq<char>, i: int)
    requires
        0 <= i,
        i + 1 < line.len(),
        line[i] == ':',
        line[i + 1] == ' ',
        forall|j: int| 0 <= j < i ==> !((#[trigger] line[j]) == ':' && line[j + 1] == ' '),
    ensures
        spec_split_kv(line) == Some((line.take(i), line.skip(i + 2))),
    decreases i,
{
    if i == 0 {
        assert(line.take(0) =~= Seq::<char>::empty());
    } else {
        assert(forall|j: int| 0 <= j < line.skip(1).len()
            ==> (#[trigger] line.skip(1)[j]) == line[j + 1]);
        lemma_split_kv_at(line.skip(1), i - 1);
        assert(seq![line[0]] + line.skip(1).take(i - 1) =~= line.take(i));
        assert(line.skip(1).skip(i + 1) =~= line.skip(i + 2));
    }
}

/// A line with no `": "` occurrence does not split.
proof fn lemma_split_kv_none(line: Seq<char>)
    requires
        forall|j: int| 0 <= j < line.len() - 1
            ==> !((#[trigger] line[j]) == ':' && line[j + 1] == ' '),
    ensures
        spec_split_kv(line) is None,
    decreases line.len(),
{
    if line.len() >= 2 {
        assert(forall|j: int| 0 <= j < line.skip(1).len()
            ==> (#[trigger] line.skip(1)[j]) == line[j + 1]);
        lemma_split_kv_none(line.skip(1));
    }
}

/// The characters of a range of a vector.
fn copy_range(v: &Vec<char>, from: usize, to: usize) -> (r: Vec<char>)
    requires
        from <= to <= v@.len(),
    ensures
        r@ == v@.subrange(from as int, to as int),
{
    let mut r: Vec<char> = Vec::new();
    let mut i: usize = from;
    while i < to
        invariant
            from <= i <= to,
            r@ == v@.subrange(from as int, i as int),
        decreases to - i,
    {
        r.push(v[i]);
        proof {
            assert(r@ =~= v@.subrange(from as int, i + 1));
        }
        i = i + 1;
    }
    proof {
        assert(r@ =~= v@.subrange(from as int, to as int));
    }
    r
}

/// Splits a whois text into key/value property pairs: one pair per
/// `key: value` line, split on the line's first `": "`; lines without
/// one are skipped.
pub fn whois_properties(text: &str) -> (r: Vec<(String, String)>)
    ensures
        pairs_view(r@) == spec_whois_pairs(text@),
{
    let chars = str_chars(text);

    // Cut the text into lines.
    let mut lines: Vec<Vec<char>> = Vec::new();
    let mut cur: Vec<char> = Vec::new();
    proof {
        assert(text@.take(0) =~= Seq::<char>::empty());
        assert(char_lines_view(lines@) =~= Seq::<Seq<char>>::empty());
    }
    let mut i: usize = 0;
    while i < chars.len()
        invariant
            i <= chars.len(),
            chars@ == text@,
            char_lines_view(lines@) == lines_state(text@.take(i as int)).0,
            cur@ == lines_state(text@.take(i as int)).1,
        decreases chars.len() - i,
    {
        proof {
            assert(text@.take(i + 1).drop_last() =~= text@.take(i as int));
            assert(text@.take(i + 1).last() == text@[i as int]);
        }
        let c = chars[i];
        if c == '\n' {
            if cur.len() > 0 && cur[cur.len() - 1] == '\r' {
                cur.pop();
                proof {
                    assert(cur@ =~= strip_cr(lines_state(text@.take(i as int)).1));
                }
            }
            lines.push(cur);
            cur = Vec::new();
            proof {
                assert(char_lines_view(lines@) =~= lines_state(text@.take(i + 1)).0);
            }
        } else {
            cur.push(c);
        }
        i = i + 1;
    }
    proof {
        assert(text@.take(i as int) =~= text@);
    }
    if cur.len() > 0 {
        lines.push(cur);
        proof {
            assert(char_lines_view(lines@) =~= spec_lines(text@));
        }
    } else {
        proof {
            assert(char_lines_view(lines@) =~= spec_lines(text@));
        }
    }

    // Split each line on its first ": ".
    let ghost lv = char_lines_view(lines@);
    let mut pairs: Vec<(String, String)> = Vec::new();
    proof {
        assert(pairs_view(pairs@) =~= Seq::<(Seq<char>, Seq<char>)>::empty());
        assert(lv.take(0) =~= Seq::<Seq<char>>::empty());
    }
    let mut li: usize = 0;
    while li < lines.len()
        invariant
            li <= lines.len(),
            lv == char_lines_view(lines@),
            pairs_view(pairs@) == spec_kv_pairs(lv.take(li as int)),
        decreases lines.len() - li,
    {
        proof {
            assert(lv.take(li + 1).drop_last() =~= lv.take(li as int));
            assert(lv.take(li + 1).last() == lines@[li as int]@);
        }
        let line = &lines[li];
        let mut found: bool = false;
        let mut sep: usize = 0;
        let mut j: usize = 0;
        while j + 1 < line.len()
            invariant
                j <= line.len(),
                j == 0 || j + 1 <= line@.len(),
                !found,
                forall|q: int| 0 <= q < j
                    ==> !((#[trigger] line@[q]) == ':' && line@[q + 1] == ' '),
            decreases line.len() - j,
        {
            if line[j] == ':' && line[j + 1] == ' ' {
                found = true;
                sep = j;
                break;
            }
            j = j + 1;
        }
        if found {
            proof {
                lemma_split_kv_at(line@, sep as int);
            }
            let key = copy_range(line, 0, sep);
            let value = copy_range(line, sep + 2, line.len());
            proof {
                assert(key@ =~= line@.take(sep as int));
                assert(value@ =~= line@.skip(sep + 2));
            }
            pairs.push((chars_to_string(&key), chars_to_string(&value)));
            proof {
                assert(pairs_view(pairs@)
                    =~= spec_kv_pairs(lv.take(li as int)).push((key@, value@)));
            }
        } else {
            proof {
                lemma_split_kv_none(line@);
            }
        }
        li = li + 1;
    }
    proof {
        assert(lv.take(li as int) =~= lv);
    }
    pairs
}

// ---------------------------------------------------------------------
// The mapper
// ---------------------------------------------------------------------

/// The items of an optional list, absent reading as empty.
pub open spec fn opt_items(o: Option<Seq<Seq<char>>>) -> Seq<Seq<char>> {
    match o {
        Some(v) => v,
        None => Seq::empty(),
    }
}

/// The pairs of an optional pair list, absent reading as empty.
pub open spec fn opt_pair_items(o: Option<Seq<(Seq<char>, Seq<char>)>>) -> Seq<
    (Seq<char>, Seq<char>),
> {
    match o {
        Some(v) => v,
        None => Seq::empty(),
    }
}

/// The property pairs of the whois text, absent reading as empty.
pub open spec fn whois_pairs_of(w: Option<Seq<char>>) -> PairSeq {
    match w {
        Some(t) => spec_whois_pairs(t),
        None => Seq::empty(),
    }
}

/// The root node: the queried indicator, typed `threat`, carrying the
/// whois properties.
pub open spec fn root_node(r: ReportV) -> NodeV {
    NodeV {
        id: spec_id_from_str(r.query),
        label: r.query,
        node_type: "threat"@,
        properties: spec_map_values(whois_pairs_of(r.whois)),
    }
}

/// One node per identifier of a category, labeled by the identifier.
pub open spec fn item_nodes(items: Seq<Seq<char>>, ntype: Seq<char>) -> Seq<NodeV> {
    Seq::new(items.len(), |i: int| NodeV {
        id: spec_id_from_str(items[i]),
        label: items[i],
        node_type: ntype,
        properties: empty_props(),
    })
}

/// One edge from the root to each identifier of a category.
pub open spec fn item_edges(
    query: Seq<char>,
    items: Seq<Seq<char>>,
    relation: Seq<char>,
) -> Seq<EdgeV> {
    Seq::new(items.len(), |i: int| EdgeV {
        source: query,
        target: items[i],
        relation_type: relation,
        properties: empty_props(),
    })
}

/// A domain node and an IP node per resolution entry.
pub open spec fn resolve_nodes(rs: Seq<(Seq<char>, Seq<char>)>) -> Seq<NodeV>
    decreases rs.len(),
{
    if rs.len() == 0 {
        Seq::empty()
    } else {
        let last = rs.last();
        resolve_nodes(rs.drop_last()) + seq![
            NodeV {
                id: spec_id_from_str(last.0),
                label: last.0,
                node_type: "domain"@,
                properties: empty_props(),
            },
            NodeV {
                id: spec_id_from_str(last.1),
                label: last.1,
                node_type: "ip"@,
                properties: empty_props(),
            },
        ]
    }
}

/// A `resolves_to` edge from the domain to the IP of each entry.
pub open spec fn resolve_edges(rs: Seq<(Seq<char>, Seq<char>)>) -> Seq<EdgeV> {
    Seq::new(rs.len(), |i: int| EdgeV {
        source: rs[i].0,
        target: rs[i].1,
        relation_type: "resolves_to"@,
        properties: empty_props(),
    })
}

/// Each resolution entry yields exactly two nodes.
proof fn lemma_resolve_nodes_len(rs: Seq<(Seq<char>, Seq<char>)>)
    ensures
        resolve_nodes(rs).len() == 2 * rs.len(),
    decreases rs.len(),
{
    if rs.len() > 0 {
        lemma_resolve_nodes_len(rs.drop_last());
    }
}

/// A node typed `dns` per DNS record, labeled by the record's value and
/// holding the record type under the `record_type` property.
pub open spec fn dns_nodes(ds: Seq<(Seq<char>, Seq<char>)>) -> Seq<NodeV> {
    Seq::new(ds.len(), |i: int| NodeV {
        id: spec_id_from_str(ds[i].1),
        label: ds[i].1,
        node_type: "dns"@,
        properties: PropertiesV { id: None, pairs: seq![("record_type"@, ds[i].0)] },
    })
}

/// A `has_dns` edge from the root to each DNS record's value.
pub open spec fn dns_edges(query: Seq<char>, ds: Seq<(Seq<char>, Seq<char>)>) -> Seq<EdgeV> {
    Seq::new(ds.len(), |i: int| EdgeV {
        source: query,
        target: ds[i].1,
        relation_type: "has_dns"@,
        properties: empty_props(),
    })
}

/// Every node the mapper emits, in document order: the root first, then
/// each category.
pub open spec fn mapper_nodes(r: ReportV) -> Seq<NodeV> {
    seq![root_node(r)]
        + item_nodes(opt_items(r.communicating_files), "file"@)
        + item_nodes(opt_items(r.contacted_ips), "ip"@)
        + item_nodes(opt_items(r.contacted_domains), "domain"@)
        + resolve_nodes(opt_pair_items(r.resolves_to))
        + dns_nodes(opt_pair_items(r.dns))
}

/// Every edge the mapper emits, in document order.
pub open spec fn mapper_edges(r: ReportV) -> Seq<EdgeV> {
    item_edges(r.query, opt_items(r.communicating_files), "communicates_with"@)
        + item_edges(r.query, opt_items(r.contacted_ips), "contacted"@)
        + item_edges(r.query, opt_items(r.contacted_domains), "contacted"@)
        + resolve_edges(opt_pair_items(r.resolves_to))
        + dns_edges(r.query, opt_pair_items(r.dns))
}

/// Mapper idempotence: the output is a function of the report value
/// alone, so two runs on identical input yield identical node and edge
/// lists, with no dependence on run order or repetition.
pub proof fn lemma_mapper_idempotent(
    r1: ReportV,
    r2: ReportV,
    out1: (Seq<NodeV>, Seq<EdgeV>),
    out2: (Seq<NodeV>, Seq<EdgeV>),
)
    requires
        r1 == r2,
        out1 == (mapper_nodes(r1), mapper_edges(r1)),
        out2 == (mapper_nodes(r2), mapper_edges(r2)),
    ensures
        out1 == out2,
{
}

/// Appends one node and one root edge per identifier of a category.
fn push_items(
    nodes: &mut Vec<Node>,
    edges: &mut Vec<Edge>,
    query: &String,
    items: &Option<Vec<String>>,
    ntype: &str,
    relation: &str,
)
    ensures
        nodes_view(final(nodes)@) == nodes_view(old(nodes)@)
            + item_nodes(opt_items(opt_strings_view(*items)), ntype@),
        edges_view(final(edges)@) == edges_view(old(edges)@)
            + item_edges(query@, opt_items(opt_strings_view(*items)), relation@),
{
    let ghost base_n = nodes_view(old(nodes)@);
    let ghost base_e = edges_view(old(edges)@);
    match items {
        None => {
            proof {
                assert(nodes_view(nodes@)
                    =~= base_n + item_nodes(opt_items(opt_strings_view(*items)), ntype@));
                assert(edges_view(edges@)
                    =~= base_e + item_edges(query@, opt_items(opt_strings_view(*items)), relation@));
            }
        },
        Some(list) => {
            let ghost sv = strings_view(list@);
            let mut i: usize = 0;
            proof {
                assert(nodes_view(nodes@) =~= base_n + item_nodes(sv.take(0), ntype@));
                assert(edges_view(edges@) =~= base_e + item_edges(query@, sv.take(0), relation@));
            }
            while i < list.len()
                invariant
                    i <= list.len(),
                    sv == strings_view(list@),
                    nodes_view(nodes@) == base_n + item_nodes(sv.take(i as int), ntype@),
                    edges_view(edges@) == base_e + item_edges(query@, sv.take(i as int), relation@),
                decreases list.len() - i,
            {
                let item = &list[i];
                let n = Node {
                    id: Properties::get_id_from_str(item.as_str()),
                    label: item.clone(),
                    node_type: ntype.to_owned(),
                    properties: Properties::new(),
                };
                nodes.push(n);
                let e = Edge {
                    source: query.clone(),
                    target: item.clone(),
                    relation_type: relation.to_owned(),
                    properties: Properties::new(),
                };
                edges.push(e);
                proof {
                    let ghost ntarget = base_n + item_nodes(sv.take(i + 1), ntype@);
                    let ghost etarget = base_e + item_edges(query@, sv.take(i + 1), relation@);
                    assert forall|j: int| 0 <= j < ntarget.len()
                        implies nodes_view(nodes@)[j] == ntarget[j] by {
                        if j < base_n.len() + i {
                            assert(nodes_view(nodes@)[j]
                                == (base_n + item_nodes(sv.take(i as int), ntype@))[j]);
                        } else {
                            assert(nodes_view(nodes@)[j] == n@);
                        }
                    };
                    assert(nodes_view(nodes@) =~= ntarget);
                    assert forall|j: int| 0 <= j < etarget.len()
                        implies edges_view(edges@)[j] == etarget[j] by {
                        if j < base_e.len() + i {
                            assert(edges_view(edges@)[j]
                                == (base_e + item_edges(query@, sv.take(i as int), relation@))[j]);
                        } else {
                            assert(edges_view(edges@)[j] == e@);
                        }
                    };
                    assert(edges_view(edges@) =~= etarget);
                }
                i = i + 1;
            }
            proof {
                assert(sv.take(i as int) =~= sv);
            }
        },
    }
}

/// Builds the canonical nodes and edges of a decoded threat report.
#[verifier::rlimit(60)]
pub fn build_threat_graph(report: &ThreatReport) -> (r: (Vec<Node>, Vec<Edge>))
    ensures
        nodes_view(r.0@) == mapper_nodes(report@),
        edges_view(r.1@) == mapper_edges(report@),
{
    let ghost rv = report@;
    let mut nodes: Vec<Node> = Vec::new();
    let mut edges: Vec<Edge> = Vec::new();

    // The root node, with whois properties.
    let props = match &report.whois {
        Some(w) => {
            let pairs = whois_properties(w.as_str());
            Properties::map_values(pairs)
        },
        None => {
            proof {
                assert(spec_map_values(whois_pairs_of(rv.whois))
                    == PropertiesV { id: None, pairs: Seq::empty() });
            }
            Properties::new()
        },
    };
    proof {
        assert(props@ == spec_map_values(whois_pairs_of(rv.whois)));
    }
    let root = Node {
        id: Properties::get_id_from_str(report.query.as_str()),
        label: report.query.clone(),
        node_type: "threat".to_owned(),
        properties: props,
    };
    nodes.push(root);
    proof {
        assert(nodes_view(nodes@) =~~= seq![root_node(rv)]);
    }

    match &report.activity {
        None => {
            proof {
                assert(nodes_view(nodes@) =~= mapper_nodes(rv));
                assert(edges_view(edges@) =~= mapper_edges(rv));
            }
        },
        Some(activity) => {
            push_items(
                &mut nodes,
                &mut edges,
                &report.query,
                &activity.related_items.communicating_files,
                "file",
                "communicates_with",
            );
            push_items(
                &mut nodes,
                &mut edges,
                &report.query,
                &activity.related_items.contacted_ips,
                "ip",
                "contacted",
            );
            push_items(
                &mut nodes,
                &mut edges,
                &report.query,
                &activity.related_items.contacted_domains,
                "domain",
                "contacted",
            );

            let ghost base_n = nodes_view(nodes@);
            let ghost base_e = edges_view(edges@);
            match &activity.related_items.resolves_to {
                None => {
                    proof {
                        assert(opt_pair_items(rv.resolves_to) =~= Seq::<(Seq<char>, Seq<char>)>::empty());
                        assert(nodes_view(nodes@)
                            =~= base_n + resolve_nodes(opt_pair_items(rv.resolves_to)));
                        assert(edges_view(edges@)
                            =~= base_e + resolve_edges(opt_pair_items(rv.resolves_to)));
                    }
                },
                Some(rs) => {
                    let ghost rsv = resolves_view(rs@);
                    let mut i: usize = 0;
                    proof {
                        assert(rsv.take(0) =~= Seq::<(Seq<char>, Seq<char>)>::empty());
                        assert(nodes_view(nodes@) =~= base_n + resolve_nodes(rsv.take(0)));
                        assert(edges_view(edges@) =~= base_e + resolve_edges(rsv.take(0)));
                    }
                    while i < rs.len()
                        invariant
                            i <= rs.len(),
                            rsv == resolves_view(rs@),
                            nodes_view(nodes@) == base_n + resolve_nodes(rsv.take(i as int)),
                            edges_view(edges@) == base_e + resolve_edges(rsv.take(i as int)),
                        decreases rs.len() - i,
                    {
                        proof {
                            assert(rsv.take(i + 1).drop_last() =~= rsv.take(i as int));
                            assert(rsv.take(i + 1).last() == (rs@[i as int].domain@, rs@[i as int].ip@));
                        }
                        let entry = &rs[i];
                        let dn = Node {
                            id: Properties::get_id_from_str(entry.domain.as_str()),
                            label: entry.domain.clone(),
                            node_type: "domain".to_owned(),
                            properties: Properties::new(),
                        };
                        nodes.push(dn);
                        let ipn = Node {
                            id: Properties::get_id_from_str(entry.ip.as_str()),
                            label: entry.ip.clone(),
                            node_type: "ip".to_owned(),
                            properties: Properties::new(),
                        };
                        nodes.push(ipn);
                        let e = Edge {
                            source: entry.domain.clone(),
                            target: entry.ip.clone(),
                            relation_type: "resolves_to".to_owned(),
                            properties: Properties::new(),
                        };
                        edges.push(e);
                        proof {
                            lemma_resolve_nodes_len(rsv.take(i as int));
                            lemma_resolve_nodes_len(rsv.take(i + 1));
                            let ghost ntarget = base_n + resolve_nodes(rsv.take(i + 1));
                            let ghost etarget = base_e + resolve_edges(rsv.take(i + 1));
                            let ghost prev_n = base_n + resolve_nodes(rsv.take(i as int));
                            assert(resolve_nodes(rsv.take(i + 1))
                                == resolve_nodes(rsv.take(i as int)) + seq![dn@, ipn@]);
                            assert forall|j: int| 0 <= j < ntarget.len()
                                implies nodes_view(nodes@)[j] == ntarget[j] by {
                                if j < prev_n.len() {
                                    assert(nodes_view(nodes@)[j] == prev_n[j]);
                                } else if j == prev_n.len() {
                                    assert(nodes_view(nodes@)[j] == dn@);
                                } else {
                                    assert(nodes_view(nodes@)[j] == ipn@);
                                }
                            };
                            assert(nodes_view(nodes@) =~= ntarget);
                            assert forall|j: int| 0 <= j < etarget.len()
                                implies edges_view(edges@)[j] == etarget[j] by {
                                if j < base_e.len() + i {
                                    assert(edges_view(edges@)[j]
                                        == (base_e + resolve_edges(rsv.take(i as int)))[j]);
                                } else {
                                    assert(edges_view(edges@)[j] == e@);
                                }
                            };
                            assert(edges_view(edges@) =~= etarget);
                        }
                        i = i + 1;
                    }
                    proof {
                        assert(rsv.take(i as int) =~= rsv);
                    }
                },
            }

            let ghost dbase_n = nodes_view(nodes@);
            let ghost dbase_e = edges_view(edges@);
            match &activity.dns {
                None => {
                    proof {
                        assert(opt_pair_items(rv.dns) =~= Seq::<(Seq<char>, Seq<char>)>::empty());
                        assert(nodes_view(nodes@) =~= dbase_n + dns_nodes(opt_pair_items(rv.dns)));
                        assert(edges_view(edges@)
                            =~= dbase_e + dns_edges(rv.query, opt_pair_items(rv.dns)));
                    }
                },
                Some(ds) => {
                    let ghost dsv = dns_view(ds@);
                    let mut i: usize = 0;
                    proof {
                        assert(dsv.take(0) =~= Seq::<(Seq<char>, Seq<char>)>::empty());
                        assert(nodes_view(nodes@) =~= dbase_n + dns_nodes(dsv.take(0)));
                        assert(edges_view(edges@) =~= dbase_e + dns_edges(rv.query, dsv.take(0)));
                    }
                    while i < ds.len()
                        invariant
                            i <= ds.len(),
                            dsv == dns_view(ds@),
                            nodes_view(nodes@) == dbase_n + dns_nodes(dsv.take(i as int)),
                            edges_view(edges@) == dbase_e + dns_edges(rv.query, dsv.take(i as int)),
                        decreases ds.len() - i,
                    {
                        let record = &ds[i];
                        let mut props = Properties::new();
                        props.insert("record_type".to_owned(), record.record_type.clone());
                        proof {
                            assert(props@.pairs =~= seq![("record_type"@, record.record_type@)]);
                        }
                        let n = Node {
                            id: Properties::get_id_from_str(record.value.as_str()),
                            label: record.value.clone(),
                            node_type: "dns".to_owned(),
                            properties: props,
                        };
                        nodes.push(n);
                        let e = Edge {
                            source: report.query.clone(),
                            target: record.value.clone(),
                            relation_type: "has_dns".to_owned(),
                            properties: Properties::new(),
                        };
                        edges.push(e);
                        proof {
                            let ghost ntarget = dbase_n + dns_nodes(dsv.take(i + 1));
                            let ghost etarget = dbase_e + dns_edges(rv.query, dsv.take(i + 1));
                            assert forall|j: int| 0 <= j < ntarget.len()
                                implies nodes_view(nodes@)[j] == ntarget[j] by {
                                if j < dbase_n.len() + i {
                                    assert(nodes_view(nodes@)[j]
                                        == (dbase_n + dns_nodes(dsv.take(i as int)))[j]);
                                } else {
                                    assert(nodes_view(nodes@)[j] == n@);
                                }
                            };
                            assert(nodes_view(nodes@) =~= ntarget);
                            assert forall|j: int| 0 <= j < etarget.len()
                                implies edges_view(edges@)[j] == etarget[j] by {
                                if j < dbase_e.len() + i {
                                    assert(edges_view(edges@)[j]
                                        == (dbase_e + dns_edges(rv.query, dsv.take(i as int)))[j]);
                                } else {
                                    assert(edges_view(edges@)[j] == e@);
                                }
                            };
                            assert(edges_view(edges@) =~= etarget);
                        }
                        i = i + 1;
                    }
                    proof {
                        assert(dsv.take(i as int) =~= dsv);
                    }
                },
            }

            proof {
                assert(nodes_view(nodes@) =~= mapper_nodes(rv));
                assert(edges_view(edges@) =~= mapper_edges(rv));
            }
        },
    }

    (nodes, edges)
}

// ---------------------------------------------------------------------
// Reading the JSON document
// ---------------------------------------------------------------------

/// The query string at `identity_and_verdict.threat.query`, if the text
/// is a JSON document holding one.
pub uninterp spec fn query_of(s: Seq<char>) -> Option<Seq<char>>;

/// The whois text at `identity_and_verdict.whois`, if present as a string.
pub uninterp spec fn whois_of(s: Seq<char>) -> Option<Seq<char>>;

/// The string list at `activity_and_relationships.related_items.<field>`,
/// if present as an array of strings.
pub uninterp spec fn related_list_of(s: Seq<char>, field: Seq<char>) -> Option<Seq<Seq<char>>>;

/// The (domain, ip) entries at
/// `activity_and_relationships.related_items.resolves_to`, if present.
pub uninterp spec fn resolutions_of(s: Seq<char>) -> Option<Seq<(Seq<char>, Seq<char>)>>;

/// The (type, value) entries at `activity_and_relationships.dns`, if
/// present.
pub uninterp spec fn dns_records_of(s: Seq<char>) -> Option<Seq<(Seq<char>, Seq<char>)>>;

/// Relies on serde_json::from_str and Value::get/as_str: reads the string
/// at `identity_and_verdict.threat.query`. The result depends on the text
/// alone; any malformed document or missing field reads as absent.
#[verifier::external_body]
fn read_query(s: &str) -> (r: Option<String>)
    ensures
        opt_string_view(r) == query_of(s@),
{
    let v: serde_json::Value = serde_json::from_str(s).ok()?;
    let q = v.get("identity_and_verdict")?.get("threat")?.get("query")?.as_str()?;
    Some(q.to_owned())
}

/// Relies on serde_json::from_str and Value::get/as_str: reads the string
/// at `identity_and_verdict.whois`. The result depends on the text alone.
#[verifier::external_body]
fn read_whois(s: &str) -> (r: Option<String>)
    ensures
        opt_string_view(r) == whois_of(s@),
{
    let v: serde_json::Value = serde_json::from_str(s).ok()?;
    let w = v.get("identity_and_verdict")?.get("whois")?.as_str()?;
    Some(w.to_owned())
}

/// Relies on serde_json::from_str and Value::get/as_array/as_str: reads
/// the array of strings at `activity_and_relationships.related_items`
/// under the given field. The result depends on the text and field alone.
#[verifier::external_body]
fn read_related_list(s: &str, field: &str) -> (r: Option<Vec<String>>)
    ensures
        opt_strings_view(r) == related_list_of(s@, field@),
{
    let v: serde_json::Value = serde_json::from_str(s).ok()?;
    let items = v.get("activity_and_relationships")?.get("related_items")?.get(field)?;
    let arr = items.as_array()?;
    arr.iter().map(|x| x.as_str().map(|t| t.to_owned())).collect()
}

/// Relies on serde_json::from_str and Value::get/as_array/as_str: reads
/// the `{domain, ip}` entries under
/// `activity_and_relationships.related_items.resolves_to`. The result
/// depends on the text alone.
#[verifier::external_body]
fn read_resolutions(s: &str) -> (r: Option<Vec<(String, String)>>)
    ensures
        match r {
            Some(v) => resolutions_of(s@) == Some(pairs_view(v@)),
            None => resolutions_of(s@) is None,
        },
{
    let v: serde_json::Value = serde_json::from_str(s).ok()?;
    let items = v.get("activity_and_relationships")?.get("related_items")?.get("resolves_to")?;
    let arr = items.as_array()?;
    arr.iter()
        .map(|x| Some((x.get("domain")?.as_str()?.to_owned(), x.get("ip")?.as_str()?.to_owned())))
        .collect()
}

/// Relies on serde_json::from_str and Value::get/as_array/as_str: reads
/// the `{type, value}` entries under `activity_and_relationships.dns`.
/// The result depends on the text alone.
#[verifier::external_body]
fn read_dns(s: &str) -> (r: Option<Vec<(String, String)>>)
    ensures
        match r {
            Some(v) => dns_records_of(s@) == Some(pairs_view(v@)),
            None => dns_records_of(s@) is None,
        },
{
    let v: serde_json::Value = serde_json::from_str(s).ok()?;
    let arr = v.get("activity_and_relationships")?.get("dns")?.as_array()?;
    arr.iter()
        .map(|x| Some((x.get("type")?.as_str()?.to_owned(), x.get("value")?.as_str()?.to_owned())))
        .collect()
}

/// The report a document decodes to, over the named field readings; it
/// exists exactly when the query reads.
pub open spec fn spec_report_of(s: Seq<char>) -> ReportV {
    ReportV {
        query: query_of(s).unwrap(),
        whois: whois_of(s),
        communicating_files: related_list_of(s, "communicating_files"@),
        contacted_ips: related_list_of(s, "contacted_ips"@),
        contacted_domains: related_list_of(s, "contacted_domains"@),
        resolves_to: resolutions_of(s),
        dns: dns_records_of(s),
    }
}

/// Parses a threat-report JSON text into canonical nodes and edges.
///
/// Returns `Err` exactly when the document holds no readable query (it is
/// not JSON, or `identity_and_verdict.threat.query` is missing or not a
/// string); otherwise the result is the mapper's output on the decoded
/// report.
pub fn parse_vt_json(data: &str) -> (r: Result<(Vec<Node>, Vec<Edge>), GraphError>)
    ensures
        match r {
            Ok(out) => query_of(data@) is Some
                && nodes_view(out.0@) == mapper_nodes(spec_report_of(data@))
                && edges_view(out.1@) == mapper_edges(spec_report_of(data@)),
            Err(e) => query_of(data@) is None && e == GraphError::MissingQuery,
        },
{
    let query = match read_query(data) {
        Some(q) => q,
        None => {
            return Err(GraphError::MissingQuery);
        },
    };
    let whois = read_whois(data);
    let communicating_files = read_related_list(data, "communicating_files");
    let contacted_ips = read_related_list(data, "contacted_ips");
    let contacted_domains = read_related_list(data, "contacted_domains");

    let resolves_to: Option<Vec<ResolveRelationship>> = match read_resolutions(data) {
        None => None,
        Some(raw) => {
            let ghost rawv = pairs_view(raw@);
            let mut rs: Vec<ResolveRelationship> = Vec::new();
            let mut i: usize = 0;
            proof {
                assert(resolves_view(rs@) =~= rawv.take(0));
            }
            while i < raw.len()
                invariant
                    i <= raw.len(),
                    rawv == pairs_view(raw@),
                    resolves_view(rs@) == rawv.take(i as int),
                decreases raw.len() - i,
            {
                rs.push(ResolveRelationship {
                    domain: raw[i].0.clone(),
                    ip: raw[i].1.clone(),
                });
                proof {
                    assert(resolves_view(rs@) =~= rawv.take(i + 1));
                }
                i = i + 1;
            }
            proof {
                assert(resolves_view(rs@) =~= rawv);
            }
            Some(rs)
        },
    };

    let dns: Option<Vec<DnsRecord>> = match read_dns(data) {
        None => None,
        Some(raw) => {
            let ghost rawv = pairs_view(raw@);
            let mut ds: Vec<DnsRecord> = Vec::new();
            let mut i: usize = 0;
            proof {
                assert(dns_view(ds@) =~= rawv.take(0));
            }
            while i < raw.len()
                invariant
                    i <= raw.len(),
                    rawv == pairs_view(raw@),
                    dns_view(ds@) == rawv.take(i as int),
                decreases raw.len() - i,
            {
                ds.push(DnsRecord {
                    record_type: raw[i].0.clone(),
                    value: raw[i].1.clone(),
                });
                proof {
                    assert(dns_view(ds@) =~= rawv.take(i + 1));
                }
                i = i + 1;
            }
            proof {
                assert(dns_view(ds@) =~= rawv);
            }
            Some(ds)
        },
    };

    let report = ThreatReport {
        query,
        whois,
        activity: Some(ActivityAndRelationships {
            related_items: RelatedItems {
                communicating_files,
                contacted_ips,
                contacted_domains,
                resolves_to,
            },
            dns,
        }),
    };
    proof {
        assert(report@ == spec_report_of(data@));
    }
    let out = build_threat_graph(&report);
    Ok(out)
}

} // verus!
