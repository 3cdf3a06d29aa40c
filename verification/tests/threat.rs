use graph_synth::threat_report::parse_vt_json;
use graph_synth::error::GraphError;

#[test]
fn test_parse_vt_json() {
    // A bare file path is not a JSON document, so nothing parses.
    let result = parse_vt_json("example_data/vt.json");
    assert_eq!(result.is_ok(), false);
}

#[test]
fn contacted_domain_becomes_node_and_edge() {
    let input = "{\"identity_and_verdict\":{\"threat\":{\"query\":\"1.2.3.4\"}},\
        \"activity_and_relationships\":{\"related_items\":{\
        \"contacted_domains\":[\"evil.com\"]}}}";
    let (nodes, edges) = parse_vt_json(input).unwrap();
    assert_eq!(nodes.len(), 2);
    assert_eq!(nodes[0].label, "1.2.3.4");
    assert_eq!(nodes[0].node_type, "threat");
    assert_eq!(nodes[1].label, "evil.com");
    assert_eq!(nodes[1].node_type, "domain");
    assert_eq!(edges.len(), 1);
    assert_eq!(edges[0].source, "1.2.3.4");
    assert_eq!(edges[0].target, "evil.com");
    assert_eq!(edges[0].relation_type, "contacted");
}

#[test]
fn whois_lines_become_root_properties() {
    let input = "{\"identity_and_verdict\":{\"threat\":{\"query\":\"evil.com\"},\
        \"whois\":\"Registrar: Example Inc\\r\\nCountry: US\\nno separator line\"}}";
    let (nodes, edges) = parse_vt_json(input).unwrap();
    assert_eq!(nodes.len(), 1);
    assert_eq!(edges.len(), 0);
    let root = &nodes[0];
    assert_eq!(root.node_type, "threat");
    assert_eq!(root.properties.get("Registrar"), Some(&"Example Inc".to_string()));
    assert_eq!(root.properties.get("Country"), Some(&"US".to_string()));
    assert_eq!(root.properties.other.len(), 2);
}

#[test]
fn whois_splits_on_first_separator_only() {
    let input = "{\"identity_and_verdict\":{\"threat\":{\"query\":\"q\"},\
        \"whois\":\"Updated: 2020: late\"}}";
    let (nodes, _) = parse_vt_json(input).unwrap();
    assert_eq!(nodes[0].properties.get("Updated"), Some(&"2020: late".to_string()));
}

#[test]
fn all_categories_map_in_document_order() {
    let input = "{\"identity_and_verdict\":{\"threat\":{\"query\":\"bad.exe\"}},\
        \"activity_and_relationships\":{\"related_items\":{\
        \"communicating_files\":[\"f1\",\"f2\"],\
        \"contacted_ips\":[\"9.9.9.9\"],\
        \"contacted_domains\":[\"d.com\"],\
        \"resolves_to\":[{\"domain\":\"d.com\",\"ip\":\"9.9.9.9\"}]},\
        \"dns\":[{\"type\":\"A\",\"value\":\"8.8.8.8\"}]}}";
    let (nodes, edges) = parse_vt_json(input).unwrap();
    // Root, two files, one ip, one domain, resolve pair, one dns node.
    assert_eq!(nodes.len(), 8);
    assert_eq!(nodes[1].label, "f1");
    assert_eq!(nodes[1].node_type, "file");
    assert_eq!(nodes[2].label, "f2");
    assert_eq!(nodes[3].label, "9.9.9.9");
    assert_eq!(nodes[3].node_type, "ip");
    assert_eq!(nodes[4].label, "d.com");
    assert_eq!(nodes[4].node_type, "domain");
    assert_eq!(nodes[5].label, "d.com");
    assert_eq!(nodes[6].label, "9.9.9.9");
    assert_eq!(nodes[7].label, "8.8.8.8");
    assert_eq!(nodes[7].node_type, "dns");
    assert_eq!(nodes[7].properties.get("record_type"), Some(&"A".to_string()));
    assert_eq!(edges.len(), 6);
    assert_eq!(edges[0].relation_type, "communicates_with");
    assert_eq!(edges[1].relation_type, "communicates_with");
    assert_eq!(edges[2].relation_type, "contacted");
    assert_eq!(edges[3].relation_type, "contacted");
    assert_eq!(edges[4].relation_type, "resolves_to");
    assert_eq!(edges[4].source, "d.com");
    assert_eq!(edges[4].target, "9.9.9.9");
    assert_eq!(edges[5].relation_type, "has_dns");
    assert_eq!(edges[5].source, "bad.exe");
    assert_eq!(edges[5].target, "8.8.8.8");
}

#[test]
fn mapper_runs_twice_identically() {
    // Idempotence: two runs over identical input yield element-wise
    // identical node and edge lists.
    let input = "{\"identity_and_verdict\":{\"threat\":{\"query\":\"1.2.3.4\"},\
        \"whois\":\"Owner: Example\"},\
        \"activity_and_relationships\":{\"related_items\":{\
        \"contacted_domains\":[\"a.com\",\"b.com\"],\
        \"contacted_ips\":[\"5.6.7.8\"]}}}";
    let (n1, e1) = parse_vt_json(input).unwrap();
    let (n2, e2) = parse_vt_json(input).unwrap();
    assert_eq!(n1.len(), n2.len());
    assert_eq!(e1.len(), e2.len());
    for (a, b) in n1.iter().zip(n2.iter()) {
        assert_eq!(a.id, b.id);
        assert_eq!(a.label, b.label);
        assert_eq!(a.node_type, b.node_type);
        assert_eq!(a.properties.id, b.properties.id);
        assert_eq!(a.properties.other, b.properties.other);
    }
    for (a, b) in e1.iter().zip(e2.iter()) {
        assert_eq!(a.source, b.source);
        assert_eq!(a.target, b.target);
        assert_eq!(a.relation_type, b.relation_type);
    }
}

#[test]
fn missing_query_is_an_error() {
    let input = "{\"identity_and_verdict\":{\"threat\":{}}}";
    assert_eq!(parse_vt_json(input).unwrap_err(), GraphError::MissingQuery);
    let input2 = "{\"something_else\": 3}";
    assert_eq!(parse_vt_json(input2).unwrap_err(), GraphError::MissingQuery);
    let input3 = "not json at all";
    assert_eq!(parse_vt_json(input3).unwrap_err(), GraphError::MissingQuery);
}

#[test]
fn numeric_ids_derive_from_identifiers() {
    let input = "{\"identity_and_verdict\":{\"threat\":{\"query\":\"n42\"}},\
        \"activity_and_relationships\":{\"related_items\":{\
        \"communicating_files\":[\"17\",\"notanumber\"]}}}";
    let (nodes, _) = parse_vt_json(input).unwrap();
    assert_eq!(nodes[0].id, Some(42));
    assert_eq!(nodes[1].id, Some(17));
    assert_eq!(nodes[2].id, None);
}

#[test]
fn ill_shaped_optional_section_reads_as_absent() {
    // The category holds a number, not a list of strings: it contributes
    // nothing, and the document still parses.
    let input = "{\"identity_and_verdict\":{\"threat\":{\"query\":\"q\"}},\
        \"activity_and_relationships\":{\"related_items\":{\
        \"contacted_domains\": 5}}}";
    let (nodes, edges) = parse_vt_json(input).unwrap();
    assert_eq!(nodes.len(), 1);
    assert_eq!(edges.len(), 0);
}
