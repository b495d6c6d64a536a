use envctl::env_file::{parse, parse_value, serialize};
use indexmap::IndexMap;

fn pairs(m: &IndexMap<String, String>) -> Vec<(String, String)> {
    m.iter().map(|(k, v)| (k.clone(), v.clone())).collect()
}

fn map(items: &[(&str, &str)]) -> IndexMap<String, String> {
    let mut m = IndexMap::new();
    for (k, v) in items {
        m.insert(k.to_string(), v.to_string());
    }
    m
}

#[test]
fn parse_reads_plain_pairs_in_order() {
    let m = parse("B=2\nA=1\n");
    assert_eq!(pairs(&m), vec![("B".to_string(), "2".to_string()), ("A".to_string(), "1".to_string())]);
}

#[test]
fn parse_skips_blank_comment_and_unassigned_lines() {
    let m = parse("\n   \n# comment=1\n  #x=y\nNOEQUALS\nK=V");
    assert_eq!(pairs(&m), vec![("K".to_string(), "V".to_string())]);
}

#[test]
fn parse_trims_keys_and_values() {
    let m = parse("  KEY  =   value with spaces   \r\n");
    assert_eq!(m.get("KEY").map(String::as_str), Some("value with spaces"));
}

#[test]
fn parse_unescapes_double_quoted_values() {
    let m = parse("A=\"say \\\"hi\\\" \\\\ done\"\n");
    assert_eq!(m.get("A").map(String::as_str), Some("say \"hi\" \\ done"));
}

#[test]
fn parse_keeps_single_quoted_values_literally() {
    let m = parse("A='x \\\" y'\n");
    assert_eq!(m.get("A").map(String::as_str), Some("x \\\" y"));
}

#[test]
fn parse_later_line_replaces_value_in_place() {
    let m = parse("A=1\nB=2\nA=3\n");
    assert_eq!(pairs(&m), vec![("A".to_string(), "3".to_string()), ("B".to_string(), "2".to_string())]);
}

#[test]
fn parse_splits_at_first_equals() {
    let m = parse("URL=postgres://u:p@h/db?x=1\n");
    assert_eq!(m.get("URL").map(String::as_str), Some("postgres://u:p@h/db?x=1"));
}

#[test]
fn parse_empty_text_gives_no_pairs() {
    assert!(parse("").is_empty());
}

#[test]
fn parse_value_cases() {
    assert_eq!(parse_value("\"abc\""), "abc");
    assert_eq!(parse_value("'abc'"), "abc");
    assert_eq!(parse_value("\""), "\"");
    assert_eq!(parse_value("'"), "'");
    assert_eq!(parse_value("\"abc'"), "\"abc'");
    assert_eq!(parse_value("plain"), "plain");
    assert_eq!(parse_value("\"\""), "");
    assert_eq!(parse_value("\"a\\\\\\\"b\""), "a\\\"b");
}

#[test]
fn serialize_escapes_and_quotes() {
    let m = map(&[("A", "x\"y"), ("B", "back\\slash"), ("C", "")]);
    assert_eq!(serialize(&m), "A=\"x\\\"y\"\nB=\"back\\\\slash\"\nC=\"\"\n");
}

#[test]
fn serialize_empty_map_is_empty() {
    assert_eq!(serialize(&IndexMap::new()), "");
}

#[test]
fn parse_reads_back_what_serialize_writes() {
    let m = map(&[
        ("DATABASE_URL", "postgres://u:p@h/db?x=1"),
        ("QUOTED", "he said \"hi\""),
        ("SLASHES", "\\\\server\\share\\"),
        ("MIXED", "\\\"tricky\"\\"),
        ("", "empty key"),
        ("SPACES", "  padded  "),
        ("UNICODE", "日本語 ✓"),
    ]);
    let text = serialize(&m);
    assert_eq!(pairs(&parse(&text)), pairs(&m));
}
