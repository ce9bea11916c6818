use jsonl_converter::errors::SplitError;
use jsonl_converter::line_processor::convert_lines;
use jsonl_converter::processor::{convert_bytes, Processor};

#[test]
fn test_default_mode_splits_two_objects() {
    let lines = vec![
        String::from("["),
        String::from("  {\"a\": 1},"),
        String::from("  {\"b\": 2}"),
        String::from("]"),
    ];
    let out = convert_lines(&lines).unwrap();
    assert_eq!(out, vec!["{\"a\": 1}", "{\"b\": 2}"]);
}

#[test]
fn test_byte_mode_splits_nested_object_on_one_line() {
    let out = convert_bytes("[{\"a\": {\"b\": 1}}]").unwrap();
    assert_eq!(out, vec!["{\"a\": {\"b\": 1}}"]);
}

#[test]
fn test_byte_mode_splits_multiline_document() {
    let out = convert_bytes("[\n  {\"a\": 1},\n  {\"b\": 2}\n]").unwrap();
    assert_eq!(out, vec!["{\"a\": 1}", "{\"b\": 2}"]);
}

#[test]
fn test_invalid_first_char_fails_before_any_element_in_byte_mode() {
    let r = convert_bytes("{\"a\": 1}");
    assert_eq!(r, Err(SplitError::InvalidFirstChar { found: '{' }));
}

#[test]
fn test_invalid_first_char_fails_before_any_element_in_line_mode() {
    let lines = vec![String::from("{"), String::from("}")];
    let r = convert_lines(&lines);
    assert_eq!(r, Err(SplitError::InvalidFirstChar { found: '{' }));
}

#[test]
fn test_bracket_mismatch_is_fatal_in_byte_mode() {
    let r = convert_bytes("[{\"a\": 1]");
    assert_eq!(r, Err(SplitError::BracketMismatch { closing: ']' }));
}

#[test]
fn test_bracket_mismatch_is_fatal_in_line_mode() {
    let lines = vec![String::from("["), String::from("}")];
    let r = convert_lines(&lines);
    assert_eq!(r, Err(SplitError::BracketMismatch { closing: '}' }));
}

#[test]
fn test_string_escapes_do_not_split_on_embedded_bracket() {
    // The element holds the literal "a\"b[c\\" — an escaped quote, a literal
    // bracket character, and an escaped backslash followed by the real quote
    // that ends the string.
    let out = convert_bytes("[{\"k\": \"a\\\"b[c\\\\\"}]").unwrap();
    assert_eq!(out, vec!["{\"k\": \"a\\\"b[c\\\\\"}"]);
}

#[test]
fn test_string_state_across_escaped_quote_and_escaped_backslash() {
    let mut p = Processor::new();
    p.push_bracket(&'[');
    // "a\"b[c\\"d — walked character by character.
    p.process_char(&'"').unwrap();
    assert!(p.is_inside_string());
    p.process_char(&'a').unwrap();
    p.process_char(&'\\').unwrap();
    p.process_char(&'"').unwrap();
    // The escaped quote does not end the string.
    assert!(p.is_inside_string());
    p.process_char(&'b').unwrap();
    p.process_char(&'[').unwrap();
    // The bracket inside the string is data, not structure.
    assert_eq!(p.bracket_stack.stack, vec!['[']);
    p.process_char(&'c').unwrap();
    p.process_char(&'\\').unwrap();
    p.process_char(&'\\').unwrap();
    p.process_char(&'"').unwrap();
    // The quote after the escaped backslash is real: the string is closed.
    assert!(!p.is_inside_string());
    p.process_char(&'d').unwrap();
    p.process_char(&'"').unwrap();
    assert!(p.is_inside_string());
}

#[test]
fn test_emitted_lines_carry_no_edge_commas() {
    let lines = vec![
        String::from("["),
        String::from("  {\"x\": []},"),
        String::from("  {\"y\": 2}"),
        String::from("]"),
    ];
    let out = convert_lines(&lines).unwrap();
    for line in &out {
        assert!(!line.starts_with(','));
        assert!(!line.ends_with(','));
    }
    assert_eq!(out, vec!["{\"x\": []}", "{\"y\": 2}"]);
}

#[test]
fn test_byte_mode_rewrapping_reconstructs_the_document() {
    // Byte mode leaves each element's separator comma inside the raw element
    // text before normalization; the emitted sequence, rewrapped, matches
    // the source array element for element.
    let doc = "[{\"a\": 1},{\"b\": 2},{\"c\": 3}]";
    let out = convert_bytes(doc).unwrap();
    assert_eq!(out.len(), 3);
    let rewrapped = format!("[{}]", out.join(","));
    assert_eq!(rewrapped, doc);
}

#[test]
fn test_split_error_messages() {
    let first = SplitError::InvalidFirstChar { found: 'x' };
    let mismatch = SplitError::BracketMismatch { closing: '}' };
    assert_eq!(first.message(), "the document must open with '['");
    assert_eq!(mismatch.message(), "mismatched closing bracket");
}

#[test]
fn test_byte_mode_collapses_whitespace_inside_elements() {
    let out = convert_bytes("[\n  {\"a\":\n     1}\n]").unwrap();
    assert_eq!(out, vec!["{\"a\":1}"]);
}
