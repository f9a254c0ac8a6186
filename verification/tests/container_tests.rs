use rpn_calc::queue::Queue;
use rpn_calc::stack::Stack;

#[test]
fn stack_pops_in_reverse_order() {
    let mut stack: Stack<i32> = Stack::new();
    stack.push(1);
    stack.push(2);
    stack.push(3);
    assert_eq!(stack.pop(), Some(3));
    assert_eq!(stack.pop(), Some(2));
    assert_eq!(stack.pop(), Some(1));
    assert_eq!(stack.pop(), None);
}

#[test]
fn stack_reports_size_and_emptiness() {
    let mut stack: Stack<&str> = Stack::new();
    assert!(stack.is_empty());
    assert_eq!(stack.size(), 0);
    stack.push("first");
    stack.push("second");
    assert!(!stack.is_empty());
    assert_eq!(stack.size(), 2);
}

#[test]
fn stack_peek_leaves_the_top_in_place() {
    let mut stack: Stack<i32> = Stack::new();
    assert_eq!(stack.peek(), None);
    stack.push(42);
    assert_eq!(stack.peek(), Some(&42));
    assert_eq!(stack.size(), 1);
    assert_eq!(stack.pop(), Some(42));
    assert_eq!(stack.peek(), None);
}

#[test]
fn stack_reverses_a_message() {
    let mut stack: Stack<char> = Stack::new();
    for ch in "Hello World!".chars() {
        stack.push(ch);
    }
    let mut reversed = String::new();
    while let Some(ch) = stack.pop() {
        reversed.push(ch);
    }
    assert_eq!(reversed, "!dlroW olleH");
}

#[test]
fn queue_dequeues_in_arrival_order() {
    let mut queue: Queue<char> = Queue::new();
    for ch in ['A', 'B', 'C', 'D', 'E'] {
        queue.enqueue(ch);
    }
    let mut order = String::new();
    while let Some(ch) = queue.dequeue() {
        order.push(ch);
    }
    assert_eq!(order, "ABCDE");
}

#[test]
fn queue_reports_emptiness() {
    let mut queue: Queue<i32> = Queue::new();
    assert!(queue.is_empty());
    assert_eq!(queue.dequeue(), None);
    queue.enqueue(10);
    assert!(!queue.is_empty());
    assert_eq!(queue.dequeue(), Some(10));
    assert!(queue.is_empty());
}

#[test]
fn stack_and_queue_disagree_on_order() {
    let input = ['A', 'B', 'C', 'D', 'E'];
    let mut stack: Stack<char> = Stack::new();
    let mut queue: Queue<char> = Queue::new();
    for &ch in &input {
        stack.push(ch);
        queue.enqueue(ch);
    }
    let mut lifo = Vec::new();
    while let Some(ch) = stack.pop() {
        lifo.push(ch);
    }
    let mut fifo = Vec::new();
    while let Some(ch) = queue.dequeue() {
        fifo.push(ch);
    }
    assert_eq!(lifo, vec!['E', 'D', 'C', 'B', 'A']);
    assert_eq!(fifo, vec!['A', 'B', 'C', 'D', 'E']);
}
