use blockio_sim::scheduler::{
    FifoScheduler, FlookScheduler, IoOperation, LookScheduler, Request, Scheduler,
};

fn read(sector: u32) -> Request {
    Request { sector, operation: IoOperation::Read }
}

fn write(sector: u32) -> Request {
    Request { sector, operation: IoOperation::Write }
}

fn sectors(queue: &[Request]) -> Vec<u32> {
    queue.iter().map(|request| request.sector).collect()
}

#[test]
fn fifo_serves_in_insertion_order() {
    let mut fifo = FifoScheduler::new();
    let arrivals = [read(50), write(10), read(90), write(10), read(0)];
    for request in arrivals {
        fifo.add_request(request);
    }
    for (turn, request) in arrivals.iter().enumerate() {
        assert_eq!(fifo.get_next_request(turn as u32 * 1000), Some(*request));
    }
    assert_eq!(fifo.get_next_request(0), None);
}

#[test]
fn fifo_ignores_the_head_position() {
    for position in [0, 10, 50, u32::MAX] {
        let mut fifo = FifoScheduler::new();
        fifo.add_request(read(30));
        fifo.add_request(read(20));
        assert_eq!(fifo.get_next_request(position), Some(read(30)));
        assert_eq!(fifo.queue().len(), 1);
    }
}

#[test]
fn fifo_empty_returns_none() {
    let mut fifo = FifoScheduler::new();
    assert_eq!(fifo.get_next_request(5), None);
    assert!(fifo.queue().is_empty());
}

#[test]
fn look_keeps_queue_sorted() {
    let mut look = LookScheduler::new();
    for sector in [50, 10, 30, 20, 40] {
        look.add_request(read(sector));
    }
    assert_eq!(sectors(look.queue()), vec![10, 20, 30, 40, 50]);
    assert!(look.direction());
}

#[test]
fn look_keeps_arrival_order_among_equal_sectors() {
    let mut look = LookScheduler::new();
    look.add_request(read(20));
    look.add_request(write(10));
    look.add_request(write(20));
    look.add_request(read(10));
    assert_eq!(look.queue().clone(), vec![write(10), read(10), read(20), write(20)]);
    // Outward the first of the two requests for sector 20 is served first.
    assert_eq!(look.get_next_request(15), Some(read(20)));
    assert_eq!(look.get_next_request(20), Some(write(20)));
    // No request lies at or beyond the head: the sweep turns round.
    assert_eq!(look.get_next_request(20), None);
    // Inward the last of the two requests for sector 10 is served first.
    assert_eq!(look.get_next_request(20), Some(read(10)));
    assert_eq!(look.get_next_request(10), Some(write(10)));
}

#[test]
fn look_direction_flip() {
    let mut look = LookScheduler::new();
    for sector in [10, 30, 50] {
        look.add_request(read(sector));
    }
    assert_eq!(look.get_next_request(40), Some(read(50)));
    assert!(look.direction());
    assert_eq!(look.get_next_request(50), None);
    assert!(!look.direction());
    assert_eq!(look.get_next_request(50), Some(read(30)));
    assert_eq!(look.get_next_request(30), Some(read(10)));
    assert!(look.queue().is_empty());
}

#[test]
fn look_inward_exhaustion_flips_outward() {
    let mut look = LookScheduler::new();
    look.add_request(read(30));
    assert_eq!(look.get_next_request(40), None);
    assert!(!look.direction());
    assert_eq!(look.get_next_request(20), None);
    assert!(look.direction());
    assert_eq!(sectors(look.queue()), vec![30]);
    assert_eq!(look.get_next_request(20), Some(read(30)));
}

#[test]
fn look_empty_queue_flips_on_every_call() {
    let mut look = LookScheduler::new();
    assert_eq!(look.get_next_request(0), None);
    assert!(!look.direction());
    assert_eq!(look.get_next_request(0), None);
    assert!(look.direction());
}

#[test]
fn look_serves_request_at_the_head() {
    let mut look = LookScheduler::new();
    look.add_request(read(40));
    assert_eq!(look.get_next_request(40), Some(read(40)));
    look.add_request(read(40));
    assert_eq!(look.get_next_request(41), None);
    assert_eq!(look.get_next_request(40), Some(read(40)));
}

#[test]
fn look_outward_sweep_never_turns_back() {
    let mut look = LookScheduler::new();
    for sector in [70, 5, 33, 90, 12, 33, 58, 41] {
        look.add_request(read(sector));
    }
    let mut head = 30;
    let mut served = Vec::new();
    while let Some(request) = look.get_next_request(head) {
        assert!(request.sector >= head);
        head = request.sector;
        served.push(request.sector);
    }
    assert_eq!(served, vec![33, 33, 41, 58, 70, 90]);
    assert!(!look.direction());
    let mut inward = Vec::new();
    while let Some(request) = look.get_next_request(head) {
        assert!(request.sector <= head);
        head = request.sector;
        inward.push(request.sector);
    }
    assert_eq!(inward, vec![12, 5]);
    assert!(look.direction());
}

#[test]
fn flook_new_requests_wait() {
    let mut flook = FlookScheduler::new();
    flook.add_request(read(30));
    flook.add_request(read(10));
    assert!(flook.active_queue().is_empty());
    assert_eq!(sectors(flook.waiting_queue()), vec![30, 10]);
    assert!(flook.direction());
}

#[test]
fn flook_swaps_and_sorts_when_active_is_empty() {
    let mut flook = FlookScheduler::new();
    for sector in [30, 10, 50, 20] {
        flook.add_request(read(sector));
    }
    assert_eq!(flook.get_next_request(25), Some(read(30)));
    assert_eq!(sectors(flook.active_queue()), vec![10, 20, 50]);
    assert!(flook.waiting_queue().is_empty());
}

#[test]
fn flook_arrival_waits_for_the_next_swap() {
    let mut flook = FlookScheduler::new();
    flook.add_request(read(40));
    flook.add_request(read(80));
    assert_eq!(flook.get_next_request(0), Some(read(40)));
    // Sector 50 lies between the head and the remaining request, and still has to wait.
    flook.add_request(read(50));
    assert_eq!(sectors(flook.waiting_queue()), vec![50]);
    assert_eq!(flook.get_next_request(40), Some(read(80)));
    assert_eq!(sectors(flook.waiting_queue()), vec![50]);
    assert!(flook.active_queue().is_empty());
    // The active queue is empty now: the queues change places and sector 50 can be served.
    assert_eq!(flook.get_next_request(0), Some(read(50)));
    assert!(flook.waiting_queue().is_empty());
}

#[test]
fn flook_stream_near_head_cannot_starve_far_request() {
    let mut flook = FlookScheduler::new();
    flook.add_request(read(10));
    flook.add_request(read(900));
    assert_eq!(flook.get_next_request(0), Some(read(10)));
    let mut head = 10;
    let mut served_far = false;
    for near in 11..40 {
        flook.add_request(read(near));
        if let Some(request) = flook.get_next_request(head) {
            head = request.sector;
            if request.sector == 900 {
                served_far = true;
                break;
            }
        }
    }
    assert!(served_far);
}

#[test]
fn flook_direction_flip() {
    let mut flook = FlookScheduler::new();
    for sector in [50, 10, 30] {
        flook.add_request(read(sector));
    }
    assert_eq!(flook.get_next_request(40), Some(read(50)));
    assert_eq!(flook.get_next_request(50), None);
    assert!(!flook.direction());
    assert_eq!(flook.get_next_request(50), Some(read(30)));
    assert_eq!(flook.get_next_request(30), Some(read(10)));
    assert!(flook.active_queue().is_empty());
}

#[test]
fn flook_direction_persists_across_swap() {
    let mut flook = FlookScheduler::new();
    flook.add_request(read(10));
    assert_eq!(flook.get_next_request(20), None);
    assert!(!flook.direction());
    assert_eq!(flook.get_next_request(20), Some(read(10)));
    flook.add_request(read(5));
    flook.add_request(read(30));
    // Still inward after the swap: the highest sector at or before the head.
    assert_eq!(flook.get_next_request(10), Some(read(5)));
    assert!(!flook.direction());
    assert_eq!(sectors(flook.active_queue()), vec![30]);
}

#[test]
fn flook_sort_is_stable() {
    let mut flook = FlookScheduler::new();
    flook.add_request(write(20));
    flook.add_request(read(10));
    flook.add_request(read(20));
    flook.add_request(write(10));
    flook.add_request(read(5));
    assert_eq!(flook.get_next_request(0), Some(read(5)));
    assert_eq!(
        flook.active_queue().clone(),
        vec![read(10), write(10), write(20), read(20)]
    );
}

#[test]
fn flook_empty_queues_flip_on_every_call() {
    let mut flook = FlookScheduler::new();
    assert_eq!(flook.get_next_request(0), None);
    assert!(!flook.direction());
    assert_eq!(flook.get_next_request(0), None);
    assert!(flook.direction());
}
