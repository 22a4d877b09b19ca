use std::collections::HashMap;

use envy_merge::{merge_entries, merge_env_files, read_env_file, MergeError};

const ENV1: &str = "FOO=bar\nBAZ=qux\nCOMMON=value1\n";
const ENV2: &str = "FOO=override\nCOMMON=value2\nNEW_VAR=new_value\n";
const PRIORITY: &str = "FOO=priority\nBAZ=priority_baz\nKEEP=this_value\n";
const EMPTY: &str = "";

/// The content of a test data file, or `None` for one that does not exist.
fn test_file(name: &str) -> Option<&'static str> {
    match name {
        "env1.env" => Some(ENV1),
        "env2.env" => Some(ENV2),
        "priority.env" => Some(PRIORITY),
        "empty.env" => Some(EMPTY),
        _ => None,
    }
}

fn sorted_lines(text: &str) -> Vec<&str> {
    let mut lines: Vec<&str> = text.split('\n').collect();
    lines.sort();
    lines
}

fn entries(pairs: &[(&str, &str)]) -> Vec<(String, String)> {
    pairs.iter().map(|(k, v)| (k.to_string(), v.to_string())).collect()
}

#[test]
fn test_merge_env_files_basic() {
    let env1 = test_file("env1.env");
    let env2 = test_file("env2.env");

    let result = merge_env_files(&[env1, env2], None).unwrap();
    let expected = "BAZ=qux\nCOMMON=value2\nFOO=override\nNEW_VAR=new_value";

    assert_eq!(sorted_lines(&result), sorted_lines(expected));
}

#[test]
fn test_merge_env_files_with_priority() {
    let env1 = test_file("env1.env");
    let env2 = test_file("env2.env");
    let priority = test_file("priority.env");

    let result = merge_env_files(&[env1, env2], Some(priority)).unwrap();
    let expected =
        "FOO=priority\nBAZ=priority_baz\nCOMMON=value2\nNEW_VAR=new_value\nKEEP=this_value";

    assert_eq!(sorted_lines(&result), sorted_lines(expected));
}

#[test]
fn test_merge_env_files_with_empty_file() {
    let env1 = test_file("env1.env");
    let empty_env = test_file("empty.env");

    let result = merge_env_files(&[env1, empty_env], None).unwrap();
    let expected = "FOO=bar\nBAZ=qux\nCOMMON=value1";

    assert_eq!(sorted_lines(&result), sorted_lines(expected));
}

#[test]
fn test_merge_env_files_with_missing_file() {
    let env1 = test_file("env1.env");
    let missing_file = test_file("tests/test_data/missing.env");

    let result = merge_env_files(&[env1, missing_file], None).unwrap();
    let expected = "FOO=bar\nBAZ=qux\nCOMMON=value1";

    assert_eq!(sorted_lines(&result), sorted_lines(expected));
}

#[test]
fn test_read_env_file() {
    let env1 = test_file("env1.env");

    let vars: HashMap<String, String> = read_env_file(env1).unwrap().into_iter().collect();

    let mut expected_vars = HashMap::new();
    expected_vars.insert("FOO".to_string(), "bar".to_string());
    expected_vars.insert("BAZ".to_string(), "qux".to_string());
    expected_vars.insert("COMMON".to_string(), "value1".to_string());

    assert_eq!(vars, expected_vars);
}

#[test]
fn test_read_env_file_empty() {
    let empty_file = test_file("empty.env");

    let vars = read_env_file(empty_file).unwrap();
    assert!(vars.is_empty());
}

#[test]
fn test_read_env_file_non_existent() {
    let missing_file = test_file("tests/test_data/missing.env");

    let vars = read_env_file(missing_file).unwrap();
    assert!(vars.is_empty());
}

#[test]
fn read_keeps_file_order_and_skips_comments() {
    let vars = read_env_file(Some("# comment\n\nA=1\nexport B = two\nC='quoted value'\n")).unwrap();
    assert_eq!(vars, entries(&[("A", "1"), ("B", "two"), ("C", "quoted value")]));
}

#[test]
fn read_is_repeatable_on_fixed_content() {
    let first = read_env_file(Some(ENV2)).unwrap();
    let second = read_env_file(Some(ENV2)).unwrap();
    assert_eq!(first, second);
}

#[test]
fn read_reports_malformed_content() {
    assert!(read_env_file(Some("=no_key\n")).is_err());
    assert!(read_env_file(Some("1ABC=x\n")).is_err());
}

#[test]
fn merge_entries_orders_priority_then_first_appearance() {
    let files = vec![
        entries(&[("FOO", "bar"), ("BAZ", "qux"), ("COMMON", "value1")]),
        entries(&[("FOO", "override"), ("COMMON", "value2"), ("NEW_VAR", "new_value")]),
    ];
    let out = merge_entries(&files, &Vec::new());
    assert_eq!(out, "FOO=override\nBAZ=qux\nCOMMON=value2\nNEW_VAR=new_value");

    let priority = entries(&[("FOO", "priority"), ("BAZ", "priority_baz"), ("KEEP", "this_value")]);
    let out = merge_entries(&files, &priority);
    assert_eq!(
        out,
        "FOO=priority\nBAZ=priority_baz\nKEEP=this_value\nCOMMON=value2\nNEW_VAR=new_value"
    );
}

#[test]
fn merge_entries_later_file_wins_and_duplicates_collapse() {
    let files = vec![
        entries(&[("A", "a1"), ("B", "b1")]),
        entries(&[("B", "b2"), ("C", "c2"), ("C", "c3")]),
    ];
    assert_eq!(merge_entries(&files, &Vec::new()), "A=a1\nB=b2\nC=c3");
}

#[test]
fn merge_entries_priority_wins_in_either_order() {
    let f1 = entries(&[("A", "a1"), ("B", "b1")]);
    let f2 = entries(&[("B", "b2"), ("C", "c2")]);
    let priority = entries(&[("B", "bp")]);
    let forward = merge_entries(&vec![f1.clone(), f2.clone()], &priority);
    let backward = merge_entries(&vec![f2, f1], &priority);
    assert_eq!(forward, "B=bp\nA=a1\nC=c2");
    assert_eq!(backward, "B=bp\nC=c2\nA=a1");
}

#[test]
fn merge_entries_of_nothing_is_empty() {
    assert_eq!(merge_entries(&Vec::new(), &Vec::new()), "");
    assert_eq!(merge_entries(&vec![Vec::new(), Vec::new()], &Vec::new()), "");
}

#[test]
fn merge_entries_keeps_empty_values() {
    let files = vec![entries(&[("EMPTY", "")])];
    assert_eq!(merge_entries(&files, &Vec::new()), "EMPTY=");
}

#[test]
fn missing_file_same_as_omitted() {
    let with_missing = merge_env_files(&[Some(ENV1), None, Some(ENV2)], None).unwrap();
    let without = merge_env_files(&[Some(ENV1), Some(ENV2)], None).unwrap();
    assert_eq!(with_missing, without);
}

#[test]
fn missing_priority_same_as_none() {
    let missing = merge_env_files(&[Some(ENV1), Some(ENV2)], Some(None)).unwrap();
    let none = merge_env_files(&[Some(ENV1), Some(ENV2)], None).unwrap();
    assert_eq!(missing, none);
    assert_eq!(sorted_lines(&none), sorted_lines("FOO=override\nBAZ=qux\nCOMMON=value2\nNEW_VAR=new_value"));
}

#[test]
fn only_empty_or_missing_files_give_empty_text() {
    assert_eq!(merge_env_files(&[None, None], None).unwrap(), "");
    assert_eq!(merge_env_files(&[Some(EMPTY), Some("# only a comment\n\n")], Some(Some(EMPTY))).unwrap(), "");
}

#[test]
fn merge_is_repeatable() {
    let first = merge_env_files(&[Some(ENV1), Some(ENV2)], Some(Some(PRIORITY))).unwrap();
    let second = merge_env_files(&[Some(ENV1), Some(ENV2)], Some(Some(PRIORITY))).unwrap();
    assert_eq!(sorted_lines(&first), sorted_lines(&second));
}

#[test]
fn malformed_priority_file_is_reported() {
    let result = merge_env_files(&[Some(ENV1)], Some(Some("not a line\n")));
    assert!(matches!(result, Err(MergeError::Priority(_))));
}

#[test]
fn malformed_regular_file_is_reported_with_its_position() {
    let result = merge_env_files(&[Some(ENV1), Some("BAD LINE\n"), Some(ENV2)], None);
    assert!(matches!(result, Err(MergeError::File(1, _))));
}

#[test]
fn priority_error_comes_before_file_error() {
    let result = merge_env_files(&[Some("BAD LINE\n")], Some(Some("also bad\n")));
    assert!(matches!(result, Err(MergeError::Priority(_))));
}

#[test]
fn first_malformed_file_is_the_one_reported() {
    let result = merge_env_files(&[Some(ENV1), None, Some("1X=y\n"), Some("BAD LINE\n")], None);
    assert!(matches!(result, Err(MergeError::File(2, _))));
}

#[test]
fn parse_keys_follow_the_text() {
    let vars = read_env_file(Some("B=1\nA=2\nB=3\n")).unwrap();
    let keys: Vec<&str> = vars.iter().map(|(k, _)| k.as_str()).collect();
    assert_eq!(keys, vec!["B", "A", "B"]);
}
