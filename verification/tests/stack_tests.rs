use chc::stack::Stack;

#[test]
fn a_new_stack_is_empty() {
    let stack: Stack<u32> = Stack::new();
    assert!(stack.empty());
    assert_eq!(stack.len(), 0);
}

#[test]
fn the_last_value_put_on_is_on_top() {
    let mut stack: Stack<u32> = Stack::new();
    stack.insert(1);
    stack.insert(2);
    stack.insert(3);
    assert!(!stack.empty());
    assert_eq!(stack.len(), 3);
    assert_eq!(*stack.top(), 3);
    assert_eq!(stack.len(), 3);
}

#[test]
fn values_come_off_in_reverse_order() {
    let mut stack: Stack<&str> = Stack::new();
    stack.insert("a");
    stack.insert("b");
    assert_eq!(stack.pop(), "b");
    assert_eq!(*stack.top(), "a");
    stack.insert("c");
    assert_eq!(stack.pop(), "c");
    assert_eq!(stack.pop(), "a");
    assert!(stack.empty());
}
