use graph_synth::types::Properties;

#[test]
fn id_printing_covers_the_whole_range() {
    let mut p = Properties::new();
    p.set_id(0);
    assert_eq!(p.get_id_as_str(), Some("0".to_string()));
    p.set_id(-5);
    assert_eq!(p.get_id_as_str(), Some("-5".to_string()));
    p.set_id(i32::MAX);
    assert_eq!(p.get_id_as_str(), Some("2147483647".to_string()));
    p.set_id(i32::MIN);
    assert_eq!(p.get_id_as_str(), Some("-2147483648".to_string()));
}

#[test]
fn id_parsing_accepts_signs_and_rejects_overflow() {
    assert_eq!(Properties::get_id_from_str("+5"), Some(5));
    assert_eq!(Properties::get_id_from_str("-2147483648"), Some(i32::MIN));
    assert_eq!(Properties::get_id_from_str("2147483647"), Some(i32::MAX));
    assert_eq!(Properties::get_id_from_str("2147483648"), None);
    assert_eq!(Properties::get_id_from_str("-2147483649"), None);
    assert_eq!(Properties::get_id_from_str("12a"), None);
    assert_eq!(Properties::get_id_from_str("-"), None);
}

#[test]
fn marker_stripping_takes_one_leading_marker_only() {
    assert_eq!(Properties::get_id_from_str("n10"), Some(10));
    assert_eq!(Properties::get_id_from_str("e0"), Some(0));
    // Only one leading marker is stripped; anything further fails the
    // numeric parse and yields no id.
    assert_eq!(Properties::get_id_from_str("ne1"), None);
    assert_eq!(Properties::get_id_from_str("n-3"), Some(-3));
}

#[test]
fn set_id_from_str_round_trips_through_printing() {
    let mut p = Properties::new();
    p.set_id_from_str("-123");
    assert_eq!(p.get_id(), Some(-123));
    assert_eq!(p.get_id_as_str(), Some("-123".to_string()));
}
