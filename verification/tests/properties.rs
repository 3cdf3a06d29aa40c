use graph_synth::types::Properties;

#[test]
fn test_properties_new() {
    let props = Properties::new();
    assert_eq!(props.id, None);
    assert_eq!(props.other.len(), 0);
}

#[test]
fn test_properties_map_values() {
    let mut props: Vec<(String, String)> = Vec::new();
    props.push(("id".to_string(), "1".to_string()));
    props.push(("label".to_string(), "Node 1".to_string()));
    props.push(("type".to_string(), "unknown".to_string()));
    let properties = Properties::map_values(props);
    assert_eq!(properties.id, Some(1));
    assert_eq!(properties.other.len(), 2);
}

#[test]
fn test_properties_get() {
    let mut props = Properties::new();
    props.insert("label".to_string(), "Node 1".to_string());
    assert_eq!(props.get("label"), Some(&"Node 1".to_string()));
}

#[test]
fn test_properties_insert() {
    let mut props = Properties::new();
    props.insert("label".to_string(), "Node 1".to_string());
    assert_eq!(props.other.len(), 1);
}

#[test]
fn test_properties_remove() {
    let mut props = Properties::new();
    props.insert("label".to_string(), "Node 1".to_string());
    assert_eq!(props.remove("label"), Some("Node 1".to_string()));
    assert_eq!(props.other.len(), 0);
}

#[test]
fn test_properties_set_id() {
    let mut props = Properties::new();
    props.set_id(1);
    assert_eq!(props.id, Some(1));
}

#[test]
fn test_properties_get_id() {
    let mut props = Properties::new();
    props.set_id(1);
    assert_eq!(props.get_id(), Some(1));
}

#[test]
fn test_properties_set_id_from_str() {
    let mut props = Properties::new();
    props.set_id_from_str("1");
    assert_eq!(props.id, Some(1));
}

#[test]
fn test_properties_get_id_as_str() {
    let mut props = Properties::new();
    props.set_id(1);
    assert_eq!(props.get_id_as_str(), Some("1".to_string()));
}

#[test]
fn test_properties_insert_overwrites_in_place() {
    let mut props = Properties::new();
    props.insert("k1".to_string(), "a".to_string());
    props.insert("k2".to_string(), "b".to_string());
    props.insert("k1".to_string(), "c".to_string());
    assert_eq!(props.other.len(), 2);
    assert_eq!(props.other[0], ("k1".to_string(), "c".to_string()));
    assert_eq!(props.get("k1"), Some(&"c".to_string()));
}

#[test]
fn test_properties_get_id_from_str() {
    assert_eq!(Properties::get_id_from_str("n3"), Some(3));
    assert_eq!(Properties::get_id_from_str("e12"), Some(12));
    assert_eq!(Properties::get_id_from_str("42"), Some(42));
    assert_eq!(Properties::get_id_from_str("-7"), Some(-7));
    assert_eq!(Properties::get_id_from_str("x7"), None);
    assert_eq!(Properties::get_id_from_str(""), None);
    assert_eq!(Properties::get_id_from_str("n"), None);
    // A value past i32's range carries no id.
    assert_eq!(Properties::get_id_from_str("99999999999"), None);
}
