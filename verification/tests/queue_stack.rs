use dsa_exercises::queue_stack::myStack;
use dsa_exercises::queue_stack::Queue;

#[test]
fn test_queue() {
    let mut s = myStack::<i32>::new();
    assert_eq!(s.pop(), Err("Stack is empty"));
    s.push(1);
    s.push(2);
    s.push(3);
    assert_eq!(s.pop(), Ok(3)); // Should pop 3
    assert_eq!(s.pop(), Ok(2)); // Should pop 2
    s.push(4);
    s.push(5);
    assert_eq!(s.is_empty(), false); // Stack is not empty
    assert_eq!(s.pop(), Ok(5)); // Should pop 5
    assert_eq!(s.pop(), Ok(4)); // Should pop 4
    assert_eq!(s.pop(), Ok(1)); // Should pop 1
    assert_eq!(s.pop(), Err("Stack is empty")); // Stack is empty
    assert_eq!(s.is_empty(), true); // Stack is empty
}

#[test]
fn queue_ops_and_errors() {
    let mut q: Queue<i32> = Queue::new();
    assert!(q.is_empty());
    assert_eq!(q.size(), 0);
    assert_eq!(q.dequeue(), Err("Queue is empty"));
    assert_eq!(q.peek(), Err("Queue is empty"));
    q.enqueue(10);
    q.enqueue(20);
    q.enqueue(30);
    assert_eq!(q.size(), 3);
    assert_eq!(q.peek(), Ok(&10));
    assert_eq!(q.dequeue(), Ok(10));
    assert_eq!(q.dequeue(), Ok(20));
    assert_eq!(q.peek(), Ok(&30));
    assert_eq!(q.dequeue(), Ok(30));
    assert_eq!(q.dequeue(), Err("Queue is empty"));
    assert!(q.is_empty());
}
