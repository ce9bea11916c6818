use jsonl_converter::reader::verify_first_char;

#[test]
fn test_verify_first_char_passes() {
    assert!(verify_first_char(&'['));
}

#[test]
fn utils_test_verify_first_char_passes() {
    assert!(verify_first_char(&'['));
}

#[test]
fn test_verify_first_char_rejects_invalid_first_char() {
    assert!(!verify_first_char(&'a'));
    assert!(!verify_first_char(&'{'));
}
