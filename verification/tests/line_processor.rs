use jsonl_converter::line_processor::LineProcessor;

#[test]
fn test_new_returns_processor_with_empty_attrs() {
    let processor = LineProcessor::new();
    assert_eq!(processor.bracket_stack.len(), 0);
    assert_eq!(processor.jsonl_string.len(), 0);
}

#[test]
fn test_get_end_char_returns_empty_char_when_line_is_one_char() {
    let processor = LineProcessor::new();
    let line = "{";
    assert_eq!(processor.get_end_char(line), ' ');
}

#[test]
fn test_get_end_char_returns_second_to_last_char_if_ends_with_comma() {
    let processor = LineProcessor::new();
    let line = "  \"name\": \"John\",";
    assert_eq!(processor.get_end_char(line), '"');
}

#[test]
fn test_get_end_char_returns_last_char_if_does_not_end_with_comma() {
    let processor = LineProcessor::new();
    let line = "  \"name\": \"John\"";
    assert_eq!(processor.get_end_char(line), '"');
}

#[test]
fn test_get_end_char_returns_empty_str_if_len_2_and_last_char_is_comma() {
    let processor = LineProcessor::new();
    let line = "{,";
    assert_eq!(processor.get_end_char(line), ' ');
}

#[test]
fn test_get_end_char_returns_str_if_last_two_open_and_close() {
    let processor = LineProcessor::new();
    let line = "cars: [],";
    assert_eq!(processor.get_end_char(line), ' ');
}

#[test]
fn test_empty_pair_line_leaves_bracket_stack_unchanged() {
    let mut processor = LineProcessor::new();
    processor.push_bracket(&'[');
    processor.push_bracket(&'{');
    let emitted = processor.process_line("\"cars\": [],").unwrap();
    assert_eq!(emitted, None);
    assert_eq!(processor.bracket_stack.stack, vec!['[', '{']);
}

#[test]
fn test_process_line_returns_object_when_filled() {
    let mut processor = LineProcessor::new();

    processor.process_line("[").unwrap();
    assert_eq!(processor.bracket_stack.stack, vec!['[']);

    processor.process_line("  {").unwrap();
    assert_eq!(processor.should_print(), false);
    assert_eq!(processor.bracket_stack.stack, vec!['[', '{']);

    processor.process_line("    \"name\": \"John\",").unwrap();
    assert_eq!(processor.should_print(), false);
    assert_eq!(processor.bracket_stack.stack, vec!['[', '{']);

    processor.process_line("    \"age\": 30,").unwrap();
    assert_eq!(processor.should_print(), false);
    assert_eq!(processor.bracket_stack.stack, vec!['[', '{']);

    processor.process_line("    \"cars\": [").unwrap();
    assert_eq!(processor.should_print(), false);
    assert_eq!(processor.bracket_stack.stack, vec!['[', '{', '[']);

    processor.process_line("    \"cars\": [").unwrap();
    assert_eq!(processor.should_print(), false);
    assert_eq!(processor.bracket_stack.stack, vec!['[', '{', '[', '[']);

    processor
        .process_line(
            "      { \"name\": \"Ford\", \"models\": [ \"Fiesta\", \"Focus\", \"Mustang\" ] },",
        )
        .unwrap();
    assert_eq!(processor.should_print(), false);
    assert_eq!(processor.bracket_stack.stack, vec!['[', '{', '[', '[']);

    processor
        .process_line("      { \"name\": \"BMW\", \"models\": [ \"320\", \"X3\", \"X5\" ] },")
        .unwrap();
    assert_eq!(processor.should_print(), false);
    assert_eq!(processor.bracket_stack.stack, vec!['[', '{', '[', '[']);

    processor
        .process_line("      { \"name\": \"Fiat\", \"models\": [ \"500\", \"Panda\" ] }")
        .unwrap();
    assert_eq!(processor.should_print(), false);
    assert_eq!(processor.bracket_stack.stack, vec!['[', '{', '[', '[']);

    processor.process_line("    ]").unwrap();
    assert_eq!(processor.should_print(), false);
    assert_eq!(processor.bracket_stack.stack, vec!['[', '{', '[']);

    processor.process_line("  ]").unwrap();
    assert_eq!(processor.should_print(), false);
    assert_eq!(processor.bracket_stack.stack, vec!['[', '{']);

    processor.process_line("}").unwrap();
    assert_eq!(processor.should_print(), true);
    assert_eq!(processor.bracket_stack.stack, vec!['[']);
}
