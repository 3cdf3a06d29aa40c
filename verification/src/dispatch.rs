//! The format dispatcher: selects a parser from the mode and the input's
//! shape, and runs the selected parser over in-memory input.
//!
//! Reading the input source and writing the resulting JSON artifact belong
//! to the caller; everything here is a pure transformation, so a failed
//! run can always be retried from the original input.

use vstd::prelude::*;
use vstd::utf8::{valid_utf8, decode_utf8};
use crate::types::{Graph, hyperedges_view};
use crate::strutil::{str_eq, str_ends_with, seq_ends_with};
use crate::error::GraphError;
use crate::graphml::{parse_graphml, xml_events_of, wide_bom, run, init_state};
use crate::threat_report::{parse_vt_json, query_of, spec_report_of, mapper_nodes, mapper_edges};

verus! {

/// What the dispatcher decides to do with an input.
#[derive(Clone, Copy, Debug, PartialEq, Eq, Structural)]
pub enum InputFormat {
    /// Parse the input as a GraphML/Maltego XML document.
    Graphml,
    /// Parse the input as a threat-report JSON document.
    ThreatReport,
    /// Look the input up with the threat service first; the response is
    /// then parsed as a threat-report JSON document.
    ThreatLookup,
}

/// The dispatcher's selection rule: an explicit mode pins the parser; in
/// `auto` mode a file path selects by extension and anything else is
/// inline threat-report text.
pub open spec fn spec_select_format(
    mode: Seq<char>,
    input_is_file: bool,
    token: Seq<char>,
) -> Result<InputFormat, GraphError> {
    if mode == "auto"@ {
        if input_is_file {
            if seq_ends_with(token, ".graphml"@) || seq_ends_with(token, ".maltego"@) {
                Ok(InputFormat::Graphml)
            } else if seq_ends_with(token, ".json"@) {
                Ok(InputFormat::ThreatReport)
            } else {
                Err(GraphError::UnrecognizedExtension)
            }
        } else {
            Ok(InputFormat::ThreatReport)
        }
    } else if mode == "graphml"@ || mode == "maltego"@ {
        Ok(InputFormat::Graphml)
    } else if mode == "vtapi"@ {
        Ok(InputFormat::ThreatLookup)
    } else {
        Err(GraphError::UnsupportedMode)
    }
}

/// Selects the parser for an input token under the given mode.
///
/// `input_is_file` says whether the token names a readable file; reading
/// the file system is the caller's business.
pub fn select_format(mode: &str, input_is_file: bool, token: &str) -> (r: Result<
    InputFormat,
    GraphError,
>)
    ensures
        r == spec_select_format(mode@, input_is_file, token@),
{
    if str_eq(mode, "auto") {
        if input_is_file {
            if str_ends_with(token, ".graphml") || str_ends_with(token, ".maltego") {
                Ok(InputFormat::Graphml)
            } else if str_ends_with(token, ".json") {
                Ok(InputFormat::ThreatReport)
            } else {
                Err(GraphError::UnrecognizedExtension)
            }
        } else {
            Ok(InputFormat::ThreatReport)
        }
    } else if str_eq(mode, "graphml") || str_eq(mode, "maltego") {
        Ok(InputFormat::Graphml)
    } else if str_eq(mode, "vtapi") {
        Ok(InputFormat::ThreatLookup)
    } else {
        Err(GraphError::UnsupportedMode)
    }
}

/// Relies on str::from_utf8: decodes bytes as UTF-8 text, or nothing
/// when they are not valid UTF-8.
#[verifier::external_body]
fn utf8_string(bytes: &[u8]) -> (r: Option<String>)
    ensures
        match r {
            Some(s) => valid_utf8(bytes@) && s@ == decode_utf8(bytes@),
            None => !valid_utf8(bytes@),
        },
{
    match std::str::from_utf8(bytes) {
        Ok(s) => Some(s.to_owned()),
        Err(_) => None,
    }
}

/// Runs the selected parser over in-memory input bytes and wraps the
/// result as a canonical graph with no hyperedges.
///
/// For `ThreatLookup` the caller hands over the looked-up report text,
/// which parses exactly as an inline threat report does. A graph comes
/// back exactly when the selected parser accepts the input; every failure
/// is the parser's own error, and nothing is written anywhere.
pub fn transform_data(data: &[u8], format: InputFormat) -> (r: Result<Graph, GraphError>)
    ensures
        match r {
            Ok(g) => g@.hyperedges.len() == 0 && match format {
                InputFormat::Graphml => !wide_bom(data@) && xml_events_of(data@) is Some
                    && g@.nodes == run(init_state(), xml_events_of(data@).unwrap()).nodes
                    && g@.edges == run(init_state(), xml_events_of(data@).unwrap()).edges,
                _ => valid_utf8(data@) && query_of(decode_utf8(data@)) is Some
                    && g@.nodes == mapper_nodes(spec_report_of(decode_utf8(data@)))
                    && g@.edges == mapper_edges(spec_report_of(decode_utf8(data@))),
            },
            Err(e) => match format {
                InputFormat::Graphml => (e == GraphError::UnsupportedEncoding && wide_bom(data@))
                    || (e == GraphError::MalformedXml && !wide_bom(data@)
                        && xml_events_of(data@) is None),
                _ => (e == GraphError::InvalidUtf8 && !valid_utf8(data@))
                    || (e == GraphError::MissingQuery && valid_utf8(data@)
                        && query_of(decode_utf8(data@)) is None),
            },
        },
{
    match format {
        InputFormat::Graphml => {
            match parse_graphml(data) {
                Ok((nodes, edges)) => {
                    let g = Graph { nodes, edges, hyperedges: Vec::new() };
                    proof {
                        assert(hyperedges_view(g.hyperedges@)
                            =~= Seq::<crate::types::HyperedgeV>::empty());
                    }
                    Ok(g)
                },
                Err(e) => Err(e),
            }
        },
        _ => {
            let text = match utf8_string(data) {
                Some(s) => s,
                None => {
                    return Err(GraphError::InvalidUtf8);
                },
            };
            match parse_vt_json(text.as_str()) {
                Ok((nodes, edges)) => {
                    let g = Graph { nodes, edges, hyperedges: Vec::new() };
                    proof {
                        assert(hyperedges_view(g.hyperedges@)
                            =~= Seq::<crate::types::HyperedgeV>::empty());
                    }
                    Ok(g)
                },
                Err(e) => Err(e),
            }
        },
    }
}

} // verus!
