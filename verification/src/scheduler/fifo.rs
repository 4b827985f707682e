//! First come, first served.

use vstd::prelude::*;
use std::collections::VecDeque;
use crate::scheduler::{Request, Scheduler, enqueued_all, dispatch_trace};

verus! {

/// Serves requests in the order in which they arrived, wherever the head is.
pub struct FifoScheduler {
    queue: VecDeque<Request>,
}

impl View for FifoScheduler {
    type V = Seq<Request>;

    /// The pending requests, the oldest first.
    closed spec fn view(&self) -> Seq<Request> {
        self.queue@
    }
}

impl FifoScheduler {
    /// An empty scheduler.
    pub fn new() -> (made: Self)
        ensures
            made@ == Seq::<Request>::empty(),
    {
        FifoScheduler { queue: VecDeque::new() }
    }

    /// The pending requests, the oldest first.
    pub fn queue(&self) -> (pending: &VecDeque<Request>)
        ensures
            pending@ == self@,
    {
        &self.queue
    }
}

impl Scheduler for FifoScheduler {
    open spec fn enqueued(state: Seq<Request>, request: Request) -> Seq<Request> {
        state.push(request)
    }

    open spec fn dispatched(state: Seq<Request>, position: u32) -> (Seq<Request>, Option<Request>) {
        if state.len() > 0 {
            (state.drop_first(), Some(state.first()))
        } else {
            (state, None)
        }
    }

    fn add_request(&mut self, request: Request) {
        self.queue.push_back(request);
    }

    fn get_next_request(&mut self, _current_sector: u32) -> (next: Option<Request>) {
        self.queue.pop_front()
    }
}

/// Enqueueing a batch appends it to the queue in the order given.
pub proof fn lemma_fifo_enqueued_all(state: Seq<Request>, requests: Seq<Request>)
    ensures
        enqueued_all::<FifoScheduler>(state, requests) == state + requests,
    decreases requests.len(),
{
    if requests.len() == 0 {
        assert(state + requests =~= state);
    } else {
        lemma_fifo_enqueued_all(state.push(requests.first()), requests.drop_first());
        assert(state.push(requests.first()) + requests.drop_first() =~= state + requests);
    }
}

/// Requests leave in exactly the order in which they stand in the queue: the
/// `i`-th dispatch hands out the `i`-th pending request, whatever the head
/// positions are, and nothing once the queue is drained.
pub proof fn lemma_fifo_dispatch_order(state: Seq<Request>, positions: Seq<u32>)
    ensures
        dispatch_trace::<FifoScheduler>(state, positions).len() == positions.len(),
        forall|i: int|
            0 <= i < positions.len() ==> #[trigger] dispatch_trace::<FifoScheduler>(
                state,
                positions,
            )[i] == if i < state.len() {
                Some(state[i])
            } else {
                None
            },
    decreases positions.len(),
{
    if positions.len() > 0 {
        let (next, handed) = FifoScheduler::dispatched(state, positions.first());
        lemma_fifo_dispatch_order(next, positions.drop_first());
    }
}

/// Requests are served in the order of their arrival whatever their sectors
/// are: after `requests` have been enqueued into an empty queue, the `i`-th
/// dispatch hands out `requests[i]`.
pub proof fn lemma_fifo_serves_in_arrival_order(requests: Seq<Request>, positions: Seq<u32>)
    ensures
        forall|i: int|
            0 <= i < positions.len() ==> #[trigger] dispatch_trace::<FifoScheduler>(
                enqueued_all::<FifoScheduler>(Seq::empty(), requests),
                positions,
            )[i] == if i < requests.len() {
                Some(requests[i])
            } else {
                None
            },
{
    lemma_fifo_enqueued_all(Seq::empty(), requests);
    assert(Seq::<Request>::empty() + requests =~= requests);
    lemma_fifo_dispatch_order(requests, positions);
}

} // verus!
