use rllm::scheduler::policy::{RequestQueue, SchedulingPolicy};

#[test]
fn fcfs_preserves_arrival_order() {
    let mut q = RequestQueue::new(SchedulingPolicy::FCFS);
    q.push(1, 0, 100);
    q.push(2, 0, 200);
    q.push(3, 0, 300);

    assert_eq!(q.pop(), Some(1));
    assert_eq!(q.pop(), Some(2));
    assert_eq!(q.pop(), Some(3));
    assert_eq!(q.pop(), None);
}

#[test]
fn priority_orders_by_priority_desc() {
    let mut q = RequestQueue::new(SchedulingPolicy::Priority);
    q.push(1, 1, 100);
    q.push(2, 5, 200);
    q.push(3, 3, 300);

    assert_eq!(q.pop(), Some(2));
    assert_eq!(q.pop(), Some(3));
    assert_eq!(q.pop(), Some(1));
}

#[test]
fn priority_ties_broken_by_arrival() {
    let mut q = RequestQueue::new(SchedulingPolicy::Priority);
    q.push(1, 5, 100);
    q.push(2, 5, 50);

    assert_eq!(q.pop(), Some(2));
    assert_eq!(q.pop(), Some(1));
}

#[test]
fn remove_from_middle() {
    let mut q = RequestQueue::new(SchedulingPolicy::FCFS);
    q.push(1, 0, 100);
    q.push(2, 0, 200);
    q.push(3, 0, 300);

    assert!(q.remove(2));
    assert_eq!(q.len(), 2);
    assert_eq!(q.pop(), Some(1));
    assert_eq!(q.pop(), Some(3));
}

#[test]
fn peek_does_not_remove() {
    let mut q = RequestQueue::new(SchedulingPolicy::FCFS);
    q.push(1, 0, 100);

    assert_eq!(q.peek(), Some(1));
    assert_eq!(q.len(), 1);
}

#[test]
fn empty_queue_operations() {
    let mut q = RequestQueue::new(SchedulingPolicy::FCFS);
    assert!(q.is_empty());
    assert_eq!(q.pop(), None);
    assert_eq!(q.peek(), None);
    assert!(!q.remove(9));
}

#[test]
fn pushing_again_updates_in_place() {
    let mut q = RequestQueue::new(SchedulingPolicy::FCFS);
    q.push(1, 0, 100);
    q.push(2, 0, 200);
    q.push(1, 7, 300);
    assert_eq!(q.iter(), vec![1, 2]);
    assert_eq!(q.priority_of(1), Some(7));
    assert_eq!(q.priority_of(9), None);
    assert!(q.contains(2));
    assert!(!q.contains(9));
    assert_eq!(q.pop_request(2), Some(2));
    assert_eq!(q.pop_request(2), None);
    assert_eq!(q.policy(), SchedulingPolicy::FCFS);
}

#[test]
fn equal_requests_keep_their_order() {
    let mut q = RequestQueue::new(SchedulingPolicy::Priority);
    q.push(1, 5, 100);
    q.push(2, 5, 100);
    q.push(3, 5, 100);
    assert_eq!(q.iter(), vec![1, 2, 3]);
}
