use pkg_engine::ini::{apply_ini_changes, format_value, join_with_line_feeds, split_at_line_feeds};

fn change(k: &str, v: &str) -> (String, String) {
    (k.to_string(), v.to_string())
}

#[test]
fn boolean_values_are_capitalized() {
    let out = apply_ini_changes("[Engine]\nbUseVSync=True\nMaxFPS=60", &vec![change("bUseVSync", "false")]);
    assert_eq!(out, "[Engine]\nbUseVSync=False\nMaxFPS=60");
    assert_eq!(format_value(&"true".to_string()), "True");
    assert_eq!(format_value(&"TRUE".to_string()), "TRUE");
    assert_eq!(format_value(&"60".to_string()), "60");
}

#[test]
fn every_occurrence_of_a_key_is_set() {
    let content = "bForceStaticTerrain=False\n[Other]\nbForceStaticTerrain=False\n";
    let out = apply_ini_changes(content, &vec![change("bForceStaticTerrain", "true")]);
    assert_eq!(out, "bForceStaticTerrain=True\n[Other]\nbForceStaticTerrain=True\n");
}

#[test]
fn key_must_be_followed_by_equals() {
    let out = apply_ini_changes("MaxFPSLimit=1\nMaxFPS=60", &vec![change("MaxFPS", "120")]);
    assert_eq!(out, "MaxFPSLimit=1\nMaxFPS=120");
}

#[test]
fn changes_apply_in_order() {
    let out = apply_ini_changes("A=1", &vec![change("A", "2"), change("A", "3")]);
    assert_eq!(out, "A=3");
    assert_eq!(apply_ini_changes("A=1\r\nB=2", &vec![]), "A=1\r\nB=2");
}

#[test]
fn split_and_join_round_trip() {
    assert_eq!(split_at_line_feeds("a\nb\n"), vec!["a", "b", ""]);
    assert_eq!(split_at_line_feeds(""), vec![""]);
    let lines = split_at_line_feeds("x\n\ny");
    assert_eq!(join_with_line_feeds(&lines), "x\n\ny");
    assert_eq!(join_with_line_feeds(&vec![]), "");
}
