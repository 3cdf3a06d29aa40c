use graph_synth::dispatch::{select_format, transform_data, InputFormat};
use graph_synth::error::GraphError;

#[test]
fn auto_mode_selects_by_extension() {
    assert_eq!(select_format("auto", true, "export.graphml"), Ok(InputFormat::Graphml));
    assert_eq!(select_format("auto", true, "export.maltego"), Ok(InputFormat::Graphml));
    assert_eq!(select_format("auto", true, "report.json"), Ok(InputFormat::ThreatReport));
    assert_eq!(
        select_format("auto", true, "notes.txt"),
        Err(GraphError::UnrecognizedExtension)
    );
}

#[test]
fn auto_mode_treats_non_files_as_inline_reports() {
    assert_eq!(
        select_format("auto", false, "{\"identity_and_verdict\":{}}"),
        Ok(InputFormat::ThreatReport)
    );
}

#[test]
fn explicit_modes_pin_the_parser() {
    assert_eq!(select_format("graphml", false, "anything"), Ok(InputFormat::Graphml));
    assert_eq!(select_format("maltego", true, "x.json"), Ok(InputFormat::Graphml));
    assert_eq!(select_format("vtapi", false, "1.2.3.4"), Ok(InputFormat::ThreatLookup));
}

#[test]
fn unknown_mode_is_an_error() {
    assert_eq!(select_format("bogus", true, "x.json"), Err(GraphError::UnsupportedMode));
}

#[test]
fn transform_runs_the_threat_parser() {
    let input = "{\"identity_and_verdict\":{\"threat\":{\"query\":\"1.2.3.4\"}},\
        \"activity_and_relationships\":{\"related_items\":{\
        \"contacted_domains\":[\"evil.com\"]}}}";
    let g = transform_data(input.as_bytes(), InputFormat::ThreatReport).unwrap();
    assert_eq!(g.nodes.len(), 2);
    assert_eq!(g.edges.len(), 1);
    assert_eq!(g.hyperedges.len(), 0);
    assert_eq!(g.nodes[0].label, "1.2.3.4");
    assert_eq!(g.nodes[1].label, "evil.com");
}

#[test]
fn transform_runs_the_graphml_parser() {
    let xml = "<graphml>\
        <node id=\"n1\"><mtg:Property name=\"domain\">a.com</mtg:Property></node>\
        <edge source=\"x\" target=\"y\" label=\"owns\"></edge>\
        </graphml>";
    let g = transform_data(xml.as_bytes(), InputFormat::Graphml).unwrap();
    assert_eq!(g.nodes.len(), 1);
    assert_eq!(g.edges.len(), 1);
    assert_eq!(g.nodes[0].label, "a.com");
    assert_eq!(g.edges[0].relation_type, "owns");
}

#[test]
fn lookup_mode_parses_the_handed_over_report() {
    let report = "{\"identity_and_verdict\":{\"threat\":{\"query\":\"q\"}}}";
    let g = transform_data(report.as_bytes(), InputFormat::ThreatLookup).unwrap();
    assert_eq!(g.nodes.len(), 1);
    assert_eq!(g.nodes[0].node_type, "threat");
}

#[test]
fn non_utf8_report_bytes_are_an_error() {
    let data: Vec<u8> = vec![0xff, 0xfe, 0xfd];
    assert_eq!(
        transform_data(&data, InputFormat::ThreatReport).unwrap_err(),
        GraphError::InvalidUtf8
    );
}

#[test]
fn error_messages_are_stable() {
    assert_eq!(GraphError::UnsupportedMode.message(), "Unsupported mode");
    assert_eq!(GraphError::UnrecognizedExtension.message(), "Auto could not identify");
    assert_eq!(GraphError::UnsupportedEncoding.message(), "Unsupported encoding detected");
}
