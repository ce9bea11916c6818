use jsonl_converter::json_object::JSONLString;

#[test]
fn test_jsonl_string_new_instance_is_empty() {
    let jsonl_string = JSONLString::new();
    assert_eq!(jsonl_string.len(), 0);
    assert_eq!(jsonl_string.to_string(), "");
}

#[test]
fn test_jsonl_string_push_char_adds_char_to_string() {
    let mut jsonl_string = JSONLString::new();
    jsonl_string.push_char(&'a');
    assert_eq!(jsonl_string.to_string(), "a");
}

#[test]
fn test_jsonl_string_push_str_adds_str_to_string() {
    let mut jsonl_string = JSONLString::new();
    jsonl_string.push_str("abc");
    assert_eq!(jsonl_string.to_string(), "abc");
}

#[test]
fn test_jsonl_string_clear_removes_all_chars_from_string() {
    let mut jsonl_string = JSONLString::new();
    jsonl_string.push_str("abc");
    jsonl_string.clear();
    assert_eq!(jsonl_string.len(), 0);
    assert_eq!(jsonl_string.to_string(), "");
}

#[test]
fn test_jsonl_string_display_trait_impl_returns_string_without_spaces() {
    let mut jsonl_string = JSONLString::new();
    jsonl_string.push_str("    \n{\"a\": 1}\n\"");
    assert_eq!(jsonl_string.to_string(), "{\"a\": 1}\"");
}

#[test]
fn test_jsonl_string_display_removes_leading_comma() {
    let mut jsonl_string = JSONLString::new();
    jsonl_string.push_str(",\n{\"a\": 1}");
    assert_eq!(jsonl_string.to_string(), "{\"a\": 1}");
}

#[test]
fn test_jsonl_len_returns_string_length() {
    let mut jsonl_string = JSONLString::new();
    jsonl_string.push_str("abc");
    assert_eq!(jsonl_string.len(), 3);
}

#[test]
fn test_rendering_twice_yields_the_same_string() {
    let mut jsonl_string = JSONLString::new();
    jsonl_string.push_str(",\n  {\"a\": [1, 2]} \n,");
    let first = jsonl_string.to_string();
    let second = jsonl_string.to_string();
    assert_eq!(first, second);
}

#[test]
fn test_appending_whitespace_newline_run_keeps_visible_content() {
    let mut jsonl_string = JSONLString::new();
    jsonl_string.push_str("{\"a\": 1}");
    let before = jsonl_string.to_string();
    jsonl_string.push_str("  \n ");
    let after = jsonl_string.to_string();
    assert_eq!(before, after);
    assert_eq!(after, "{\"a\": 1}");
}

#[test]
fn test_trailing_whitespace_is_swallowed_by_appended_newline_run() {
    let mut jsonl_string = JSONLString::new();
    jsonl_string.push_str("{\"a\": 1} ");
    assert_eq!(jsonl_string.to_string(), "{\"a\": 1} ");
    jsonl_string.push_str("\n");
    assert_eq!(jsonl_string.to_string(), "{\"a\": 1}");
}

#[test]
fn test_only_whitespace_runs_with_newlines_collapse() {
    let mut jsonl_string = JSONLString::new();
    jsonl_string.push_str(" \r \n \t x \n\n y ");
    assert_eq!(jsonl_string.to_string(), "xy ");
}

#[test]
fn test_strips_one_trailing_comma_only() {
    let mut jsonl_string = JSONLString::new();
    jsonl_string.push_str("{\"a\": 1},,");
    assert_eq!(jsonl_string.to_string(), "{\"a\": 1},");
}
