use exprcalc::collections::{Queue, Stack};

#[test]
fn stack_is_last_in_first_out() {
    let mut stack: Stack<i32> = Stack::new();
    assert!(stack.is_empty());
    assert_eq!(stack.len(), 0);
    assert_eq!(stack.pop(), None);
    assert_eq!(stack.peek(), None);
    stack.push(1);
    stack.push(2);
    stack.push(3);
    assert!(!stack.is_empty());
    assert_eq!(stack.len(), 3);
    assert_eq!(stack.pop(), Some(3));
    assert_eq!(stack.pop(), Some(2));
    assert_eq!(stack.pop(), Some(1));
    assert_eq!(stack.pop(), None);
}

#[test]
fn stack_peek_is_the_top_not_the_bottom() {
    let mut stack: Stack<i32> = Stack::new();
    stack.push(10);
    stack.push(20);
    assert_eq!(stack.peek(), Some(&20));
    assert_eq!(stack.len(), 2);
    stack.pop();
    assert_eq!(stack.peek(), Some(&10));
}

#[test]
fn stack_from_vec_has_the_last_element_on_top() {
    let mut stack = Stack::from_vec(vec![1, 2, 3]);
    assert_eq!(stack.len(), 3);
    assert_eq!(stack.get(0), Some(&1));
    assert_eq!(stack.get(2), Some(&3));
    assert_eq!(stack.get(3), None);
    assert_eq!(stack.peek(), Some(&3));
    assert_eq!(stack.pop(), Some(3));
    let empty: Stack<i32> = Stack::from_vec(Vec::new());
    assert!(empty.is_empty());
}

#[test]
fn queue_is_first_in_first_out() {
    let mut queue: Queue<i32> = Queue::new();
    assert!(queue.is_empty());
    assert_eq!(queue.dequeue(), None);
    queue.enqueue(1);
    queue.enqueue(2);
    queue.enqueue(3);
    assert_eq!(queue.len(), 3);
    assert_eq!(queue.get(0), Some(&1));
    assert_eq!(queue.get(2), Some(&3));
    assert_eq!(queue.get(3), None);
    assert_eq!(queue.dequeue(), Some(1));
    assert_eq!(queue.dequeue(), Some(2));
    assert_eq!(queue.dequeue(), Some(3));
    assert_eq!(queue.dequeue(), None);
    assert!(queue.is_empty());
}

#[test]
fn queue_from_vec_keeps_the_order() {
    let mut queue = Queue::from_vec(vec!['a', 'b', 'c']);
    assert_eq!(queue.len(), 3);
    assert_eq!(queue.dequeue(), Some('a'));
    assert_eq!(queue.dequeue(), Some('b'));
    assert_eq!(queue.dequeue(), Some('c'));
    assert!(queue.is_empty());
}
