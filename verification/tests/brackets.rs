use jsonl_converter::brackets::{
    brackets_map, is_closing_bracket, is_opening_bracket, BracketStack,
};

#[test]
fn test_is_opening_bracket_returns_true_for_opening_bracket() {
    assert_eq!(is_opening_bracket(&'['), true);
    assert_eq!(is_opening_bracket(&'{'), true);
    assert_eq!(is_opening_bracket(&']'), false);
    assert_eq!(is_opening_bracket(&'}'), false);
}

#[test]
fn test_is_closing_bracket_returns_true_for_closing_bracket() {
    assert_eq!(is_closing_bracket(&']'), true);
    assert_eq!(is_closing_bracket(&'}'), true);
    assert_eq!(is_closing_bracket(&'['), false);
    assert_eq!(is_closing_bracket(&'{'), false);
}

#[test]
fn test_brackets_map_returns_correct_map() {
    let map = brackets_map();
    assert_eq!(map[0], (']', '['));
    assert_eq!(map[1], ('}', '{'));
}

#[test]
fn test_bracket_stack_is_empty_returns_true_for_empty_bracket_stack() {
    let stack = BracketStack::new();
    assert_eq!(stack.is_empty(), true);
}

#[test]
fn test_bracket_stack_is_empty_returns_false_for_non_empty_bracket_stack() {
    let mut stack = BracketStack::new();
    stack.push(&'[');
    assert_eq!(stack.is_empty(), false);
}

#[test]
fn test_bracket_stack_push_adds_bracket_to_stack() {
    let mut stack = BracketStack::new();
    stack.push(&'[');
    assert_eq!(stack.stack, vec!['[']);
}

#[test]
fn test_bracket_stack_pop_pair_returns_correct_bracket() {
    let mut stack = BracketStack::new();
    stack.push(&'[');
    assert_eq!(stack.pop_pair(&']'), Some('['));
}

#[test]
fn test_bracket_stack_pop_pair_returns_none_on_mismatched_brackets() {
    let mut stack = BracketStack::new();
    stack.push(&'[');
    assert_eq!(stack.pop_pair(&'}'), None);
    assert_eq!(stack.stack, vec!['[']);
}

#[test]
fn test_bracket_stack_pop_pair_returns_none_on_empty_stack() {
    let mut stack = BracketStack::new();
    assert_eq!(stack.pop_pair(&']'), None);
    assert!(stack.is_empty());
}

#[test]
fn test_bracket_stack_iterator() {
    let mut stack = BracketStack::new();
    stack.push(&'[');
    stack.push(&'{');
    stack.push(&'}');
    stack.push(&']');
    assert_eq!(stack.pop(), Some(']'));
    assert_eq!(stack.pop(), Some('}'));
    assert_eq!(stack.pop(), Some('{'));
    assert_eq!(stack.pop(), Some('['));
    assert_eq!(stack.pop(), None);
}

#[test]
fn test_bracket_stack_exact_size_iterator() {
    let mut stack = BracketStack::new();
    stack.push(&'[');
    stack.push(&'{');
    stack.push(&'}');
    stack.push(&']');
    assert_eq!(stack.len(), 4);
}
