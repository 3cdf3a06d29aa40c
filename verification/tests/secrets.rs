use graph_synth::keys::{get_vtapi, get_api_key_var, get_serp_api_key_var, get_openai_key_var};

#[test]
fn test_get_vtapi() {
    assert_eq!(get_vtapi(None), "insert_api_here");
}

#[test]
fn test_get_api_key_var() {
    assert_eq!(get_api_key_var(None), "insert_openai_api_here");
}

#[test]
fn test_get_serp_api_key_var() {
    assert_eq!(get_serp_api_key_var(None), "<get a free key at serpapi.com>");
}

#[test]
fn test_get_openai_key_var() {
    assert_eq!(get_openai_key_var(None), "<your OpenAI key>");
}

#[test]
fn test_configured_key_wins() {
    assert_eq!(get_vtapi(Some("abc".to_string())), "abc");
    assert_eq!(get_openai_key_var(Some("xyz".to_string())), "xyz");
}
