use dsa_exercises::brackets::bracket_match;
use dsa_exercises::brackets::Stack;

#[test]
fn bracket_matching_1() {
    let s = "(2+3){func}[abc]";
    assert_eq!(bracket_match(s), true);
}

#[test]
fn bracket_matching_2() {
    let s = "(2+3)*(3-1";
    assert_eq!(bracket_match(s), false);
}

#[test]
fn bracket_matching_3() {
    let s = "{{([])}}";
    assert_eq!(bracket_match(s), true);
}

#[test]
fn bracket_matching_4() {
    let s = "{{(}[)]}";
    assert_eq!(bracket_match(s), false);
}

#[test]
fn bracket_matching_5() {
    let s = "[[[]]]]]]]]]";
    assert_eq!(bracket_match(s), false);
}

#[test]
fn bracket_matching_6() {
    let s = "";
    assert_eq!(bracket_match(s), true);
}

#[test]
fn stack_ops() {
    let mut stack: Stack<i32> = Stack::new();
    assert!(stack.is_empty());
    assert_eq!(stack.pop(), None);
    stack.push(4);
    stack.push(9);
    assert_eq!(stack.len(), 2);
    assert_eq!(stack.peek(), Some(&9));
    assert_eq!(stack.pop(), Some(9));
    assert_eq!(stack.pop(), Some(4));
    assert_eq!(stack.pop(), None);
    stack.push(7);
    stack.clear();
    assert!(stack.is_empty());
    assert_eq!(stack.peek(), None);
}
