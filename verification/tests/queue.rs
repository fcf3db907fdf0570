use verified_collections::queue::{myStack, Queue};

#[test]
fn queue_yields_first_in_first_out() {
    let mut queue = Queue::new();
    assert!(queue.is_empty());
    queue.enqueue(1);
    queue.enqueue(2);
    queue.enqueue(3);
    assert_eq!(queue.size(), 3);
    assert_eq!(queue.peek(), Ok(&1));
    assert_eq!(queue.dequeue(), Ok(1));
    assert_eq!(queue.dequeue(), Ok(2));
    assert_eq!(queue.size(), 1);
    assert_eq!(queue.peek(), Ok(&3));
    assert_eq!(queue.dequeue(), Ok(3));
    assert!(queue.is_empty());
}

#[test]
fn empty_queue_reports_that_it_is_empty() {
    let mut queue: Queue<u8> = Queue::new();
    assert_eq!(queue.size(), 0);
    assert_eq!(queue.peek(), Err("Queue is empty"));
    assert_eq!(queue.dequeue(), Err("Queue is empty"));
    assert_eq!(queue.size(), 0);
}

#[test]
fn default_queue_is_empty() {
    let queue: Queue<String> = Queue::default();
    assert!(queue.is_empty());
    assert_eq!(queue.size(), 0);
}

#[test]
fn stack_yields_last_in_first_out() {
    let mut stack = myStack::new();
    assert!(stack.is_empty());
    stack.push(1);
    stack.push(2);
    stack.push(3);
    assert!(!stack.is_empty());
    assert_eq!(stack.pop(), Ok(3));
    assert_eq!(stack.pop(), Ok(2));
    stack.push(4);
    stack.push(5);
    assert!(!stack.is_empty());
    assert_eq!(stack.pop(), Ok(5));
    assert_eq!(stack.pop(), Ok(4));
    assert_eq!(stack.pop(), Ok(1));
    assert!(stack.is_empty());
}

#[test]
fn empty_stack_reports_that_it_is_empty() {
    let mut stack: myStack<char> = myStack::new();
    assert_eq!(stack.pop(), Err("Stack is empty"));
    assert!(stack.is_empty());
    stack.push('x');
    assert_eq!(stack.pop(), Ok('x'));
    assert_eq!(stack.pop(), Err("Stack is empty"));
}
