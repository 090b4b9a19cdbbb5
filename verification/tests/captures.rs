use zeta::captures::{dedup_names, extract_capture_names};

#[test]
fn private_captures_are_excluded() {
    let names = extract_capture_names("(function) @foo (string) @_bar").unwrap();
    assert_eq!(names, vec!["foo".to_string()]);
}

#[test]
fn captures_come_in_text_order_with_repeats() {
    let names = extract_capture_names("(a) @x (b) @y (c) @x").unwrap();
    assert_eq!(names, vec!["x".to_string(), "y".to_string(), "x".to_string()]);
}

#[test]
fn a_query_with_no_captures_yields_an_empty_list() {
    let names = extract_capture_names("(function)").unwrap();
    assert_eq!(names.len(), 0);
}

#[test]
fn only_private_captures_yield_an_empty_list() {
    let names = extract_capture_names("(function) @_hidden").unwrap();
    assert_eq!(names.len(), 0);
}

#[test]
fn empty_text_yields_an_empty_list() {
    let names = extract_capture_names("").unwrap();
    assert_eq!(names.len(), 0);
}

#[test]
fn nested_patterns_contribute_their_captures() {
    let names = extract_capture_names("(call (identifier) @name (arguments) @args)").unwrap();
    assert_eq!(names, vec!["name".to_string(), "args".to_string()]);
}

#[test]
fn dedup_keeps_first_occurrences_in_order() {
    let names = vec![
        "b".to_string(),
        "a".to_string(),
        "b".to_string(),
        "c".to_string(),
        "a".to_string(),
    ];
    let deduped = dedup_names(&names);
    assert_eq!(deduped, vec!["b".to_string(), "a".to_string(), "c".to_string()]);
}
