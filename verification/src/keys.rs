//! Configuration fallbacks for the external collaborators' credentials.
//!
//! The engine itself never reads the environment; a caller passes in
//! whatever it found configured, and these helpers substitute the
//! placeholder default when nothing was.

use vstd::prelude::*;

verus! {

/// The configured threat-lookup key, or its placeholder.
pub fn get_vtapi(configured: Option<String>) -> (r: String)
    ensures
        r@ == match configured {
            Some(s) => s@,
            None => "insert_api_here"@,
        },
{
    match configured {
        Some(s) => s,
        None => "insert_api_here".to_owned(),
    }
}

/// The configured language-model key, or its placeholder.
pub fn get_api_key_var(configured: Option<String>) -> (r: String)
    ensures
        r@ == match configured {
            Some(s) => s@,
            None => "insert_openai_api_here"@,
        },
{
    match configured {
        Some(s) => s,
        None => "insert_openai_api_here".to_owned(),
    }
}

/// The configured search key, or its placeholder.
pub fn get_serp_api_key_var(configured: Option<String>) -> (r: String)
    ensures
        r@ == match configured {
            Some(s) => s@,
            None => "<get a free key at serpapi.com>"@,
        },
{
    match configured {
        Some(s) => s,
        None => "<get a free key at serpapi.com>".to_owned(),
    }
}

/// The configured language-model key for the collector, or its
/// placeholder.
pub fn get_openai_key_var(configured: Option<String>) -> (r: String)
    ensures
        r@ == match configured {
            Some(s) => s@,
            None => "<your OpenAI key>"@,
        },
{
    match configured {
        Some(s) => s,
        None => "<your OpenAI key>".to_owned(),
    }
}

} // verus!
