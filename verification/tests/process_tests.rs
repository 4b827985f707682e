use blockio_sim::process::{Process, ProcessManager};
use blockio_sim::scheduler::{IoOperation, Request};

fn read(sector: u32) -> Request {
    Request { sector, operation: IoOperation::Read }
}

fn ids(queue: &std::collections::VecDeque<Process>) -> Vec<u32> {
    queue.iter().map(|process| process.id).collect()
}

#[test]
fn process_new_has_full_quantum() {
    let process = Process::new(7, vec![read(1), read(2)], 20);
    assert_eq!(process.id, 7);
    assert_eq!(process.requests, vec![read(1), read(2)]);
    assert_eq!(process.time_remaining, 20);
    assert!(process.has_requests());
}

#[test]
fn process_consumes_requests_from_the_tail() {
    let mut process = Process::new(1, vec![read(100), read(200), read(300)], 5);
    assert_eq!(process.next_request(), Some(read(300)));
    assert_eq!(process.next_request(), Some(read(200)));
    assert!(process.has_requests());
    assert_eq!(process.next_request(), Some(read(100)));
    assert!(!process.has_requests());
    assert_eq!(process.next_request(), None);
    assert_eq!(process.time_remaining, 5);
}

#[test]
fn process_without_requests() {
    let mut process = Process::new(1, Vec::new(), 0);
    assert!(!process.has_requests());
    assert_eq!(process.next_request(), None);
}

#[test]
fn manager_new_is_empty() {
    let manager = ProcessManager::new();
    assert!(manager.run_q.is_empty());
    assert!(manager.sleep_q.is_empty());
}

#[test]
fn manager_add_process_appends_to_run_queue() {
    let mut manager = ProcessManager::new();
    manager.add_process(Process::new(1, vec![read(1)], 2));
    manager.add_process(Process::new(2, vec![read(2)], 2));
    manager.add_process(Process::new(3, vec![read(3)], 2));
    assert_eq!(ids(&manager.run_q), vec![1, 2, 3]);
    assert!(manager.sleep_q.is_empty());
}

#[test]
fn manager_move_to_sleep_relocates() {
    let mut manager = ProcessManager::new();
    for id in [1, 2, 3] {
        manager.add_process(Process::new(id, vec![read(id)], 2));
    }
    assert!(manager.move_to_sleep(2));
    assert_eq!(ids(&manager.run_q), vec![1, 3]);
    assert_eq!(ids(&manager.sleep_q), vec![2]);
    assert!(manager.move_to_sleep(1));
    assert_eq!(ids(&manager.run_q), vec![3]);
    assert_eq!(ids(&manager.sleep_q), vec![2, 1]);
    assert_eq!(manager.sleep_q[0].requests, vec![read(2)]);
}

#[test]
fn manager_move_to_sleep_unknown_is_noop() {
    let mut manager = ProcessManager::new();
    manager.add_process(Process::new(1, vec![read(1)], 2));
    assert!(!manager.move_to_sleep(9));
    assert_eq!(ids(&manager.run_q), vec![1]);
    assert!(manager.sleep_q.is_empty());
}

#[test]
fn manager_wake_up_relocates() {
    let mut manager = ProcessManager::new();
    for id in [1, 2, 3] {
        manager.add_process(Process::new(id, vec![read(id)], 2));
    }
    assert!(manager.move_to_sleep(1));
    assert!(manager.move_to_sleep(3));
    assert!(manager.wake_up_process(3));
    assert_eq!(ids(&manager.run_q), vec![2, 3]);
    assert_eq!(ids(&manager.sleep_q), vec![1]);
}

#[test]
fn manager_wake_up_unknown_is_noop() {
    let mut manager = ProcessManager::new();
    manager.add_process(Process::new(1, vec![read(1)], 2));
    // Process 1 is ready, not asleep: there is nothing to wake.
    assert!(!manager.wake_up_process(1));
    assert_eq!(ids(&manager.run_q), vec![1]);
    assert!(manager.sleep_q.is_empty());
}

#[test]
fn manager_moves_first_of_equal_ids() {
    let mut manager = ProcessManager::new();
    manager.add_process(Process::new(5, vec![read(1)], 2));
    manager.add_process(Process::new(5, vec![read(2)], 2));
    assert!(manager.move_to_sleep(5));
    assert_eq!(manager.run_q[0].requests, vec![read(2)]);
    assert_eq!(manager.sleep_q[0].requests, vec![read(1)]);
}
