use graph_synth::graphml::parse_graphml;
use graph_synth::error::GraphError;

#[test]
fn node_with_domain_property_gets_label_and_type() {
    let xml = "<graphml>\
        <node id=\"n1\"><mtg:Property name=\"domain\">evil.com</mtg:Property></node>\
        </graphml>";
    let (nodes, edges) = parse_graphml(xml.as_bytes()).unwrap();
    assert_eq!(nodes.len(), 1);
    assert_eq!(edges.len(), 0);
    let n = &nodes[0];
    assert_eq!(n.label, "evil.com");
    assert_eq!(n.node_type, "domain");
    assert_eq!(n.id, Some(1));
    assert_eq!(n.properties.get("domain"), Some(&"evil.com".to_string()));
}

#[test]
fn name_property_sets_label_only() {
    let xml = "<graphml>\
        <node id=\"n2\" kind=\"host\">\
        <mtg:Property name=\"name\">Main Server</mtg:Property>\
        </node></graphml>";
    let (nodes, _) = parse_graphml(xml.as_bytes()).unwrap();
    assert_eq!(nodes[0].label, "Main Server");
    // No address-like property fired, and the longest-value fallback
    // finds nothing longer than the label, so the type stays unknown.
    assert_eq!(nodes[0].node_type, "unknown");
    assert_eq!(nodes[0].properties.get("kind"), Some(&"host".to_string()));
}

#[test]
fn unknown_type_falls_back_to_longest_property_value() {
    let xml = "<graphml><node id=\"n3\">\
        <mtg:Property name=\"description\">a rather long description text</mtg:Property>\
        </node></graphml>";
    let (nodes, _) = parse_graphml(xml.as_bytes()).unwrap();
    // The value outgrows the default label, so it becomes the label and
    // its key the type.
    assert_eq!(nodes[0].label, "a rather long description text");
    assert_eq!(nodes[0].node_type, "description");
}

#[test]
fn node_without_id_attribute_is_not_emitted() {
    let xml = "<graphml><node kind=\"x\"></node><node id=\"n1\"></node></graphml>";
    let (nodes, _) = parse_graphml(xml.as_bytes()).unwrap();
    assert_eq!(nodes.len(), 1);
    assert_eq!(nodes[0].id, Some(1));
}

#[test]
fn edge_label_attribute_becomes_relation_type() {
    let xml = "<graphml>\
        <edge source=\"a\" target=\"b\" label=\"owns\"></edge>\
        <edge source=\"b\" target=\"c\"></edge>\
        </graphml>";
    let (_, edges) = parse_graphml(xml.as_bytes()).unwrap();
    assert_eq!(edges.len(), 2);
    assert_eq!(edges[0].relation_type, "owns");
    assert_eq!(edges[1].relation_type, "linked_to");
    assert_eq!(edges[0].properties.get("source"), Some(&"a".to_string()));
}

#[test]
fn edge_with_missing_endpoint_is_dropped() {
    let xml = "<graphml>\
        <edge source=\"a\"></edge>\
        <edge target=\"b\"></edge>\
        <edge source=\"a\" target=\"b\"></edge>\
        </graphml>";
    let (_, edges) = parse_graphml(xml.as_bytes()).unwrap();
    assert_eq!(edges.len(), 1);
    assert_eq!(edges[0].source, "a");
    assert_eq!(edges[0].target, "b");
}

#[test]
fn entity_references_are_unescaped() {
    let xml = "<graphml>\
        <node id=\"n1\" note=\"a &amp; b\">\
        <mtg:Property name=\"name\">x &lt;y&gt; &amp; z</mtg:Property>\
        </node></graphml>";
    let (nodes, _) = parse_graphml(xml.as_bytes()).unwrap();
    assert_eq!(nodes[0].properties.get("note"), Some(&"a & b".to_string()));
    assert_eq!(nodes[0].label, "x <y> & z");
}

#[test]
fn edge_properties_from_named_elements() {
    let xml = "<graphml><edge source=\"a\" target=\"b\">\
        <mtg:Property name=\"weight\">3</mtg:Property>\
        </edge></graphml>";
    let (_, edges) = parse_graphml(xml.as_bytes()).unwrap();
    assert_eq!(edges[0].properties.get("weight"), Some(&"3".to_string()));
}

#[test]
fn wide_byte_order_mark_is_rejected() {
    let data: Vec<u8> = vec![0xff, 0xfe, b'<', 0, b'a', 0];
    assert_eq!(parse_graphml(&data).unwrap_err(), GraphError::UnsupportedEncoding);
    let data2: Vec<u8> = vec![0xfe, 0xff, 0, b'<'];
    assert_eq!(parse_graphml(&data2).unwrap_err(), GraphError::UnsupportedEncoding);
}

#[test]
fn malformed_xml_is_an_error() {
    let xml = "<graphml><node id=\"n1\"></edge></graphml>";
    assert_eq!(parse_graphml(xml.as_bytes()).unwrap_err(), GraphError::MalformedXml);
}

#[test]
fn later_address_property_wins() {
    let xml = "<graphml><node id=\"n1\">\
        <mtg:Property name=\"domain\">first.com</mtg:Property>\
        <mtg:Property name=\"ipv4-address\">10.0.0.1</mtg:Property>\
        </node></graphml>";
    let (nodes, _) = parse_graphml(xml.as_bytes()).unwrap();
    assert_eq!(nodes[0].label, "10.0.0.1");
    assert_eq!(nodes[0].node_type, "ipv4-address");
    assert_eq!(nodes[0].properties.get("domain"), Some(&"first.com".to_string()));
}
