//! LOOK: serve in sector order, turning round at the last pending request.

use vstd::prelude::*;
use crate::scheduler::{Request, Scheduler, sweep, keeps_direction};
use crate::scheduler::order::{
    ascending, placed, scan, insert_by_sector, scan_queue, lemma_placed_keeps_ascending,
    lemma_scan_keeps_ascending, lemma_scan_direction,
};

verus! {

/// Keeps one queue in ascending sector order and sweeps over it, outward
/// (towards higher sectors) or inward, turning round only when the direction
/// holds no more requests.
pub struct LookScheduler {
    queue: Vec<Request>,
    direction: bool,
}

/// The mathematical state of a LOOK scheduler.
pub struct LookState {
    /// The pending requests, in ascending sector order.
    pub queue: Seq<Request>,
    /// Whether the sweep moves towards higher sectors.
    pub outward: bool,
}

impl View for LookScheduler {
    type V = LookState;

    closed spec fn view(&self) -> LookState {
        LookState { queue: self.queue@, outward: self.direction }
    }
}

impl LookScheduler {
    /// The invariant of the scheduler: its queue is in ascending sector order.
    #[verifier::type_invariant]
    pub open spec fn wf(self) -> bool {
        ascending(self@.queue)
    }

    /// An empty scheduler that sweeps outward.
    pub fn new() -> (made: Self)
        ensures
            made@.queue == Seq::<Request>::empty(),
            made@.outward,
    {
        LookScheduler { queue: Vec::new(), direction: true }
    }

    /// The pending requests, in ascending sector order.
    pub fn queue(&self) -> (pending: &Vec<Request>)
        ensures
            pending@ == self@.queue,
            ascending(pending@),
    {
        proof {
            use_type_invariant(self);
        }
        &self.queue
    }

    /// Whether the sweep moves outward, towards higher sectors.
    pub fn direction(&self) -> (outward: bool)
        ensures
            outward == self@.outward,
    {
        self.direction
    }
}

impl Scheduler for LookScheduler {
    open spec fn enqueued(state: LookState, request: Request) -> LookState {
        LookState { queue: placed(state.queue, request), outward: state.outward }
    }

    open spec fn dispatched(state: LookState, position: u32) -> (LookState, Option<Request>) {
        let (queue, outward, handed) = scan(state.queue, state.outward, position);
        (LookState { queue, outward }, handed)
    }

    fn add_request(&mut self, request: Request)
        ensures
            ascending(final(self)@.queue),
    {
        proof {
            use_type_invariant(&*self);
            lemma_placed_keeps_ascending(self.queue@, request);
        }
        let mut queue: Vec<Request> = Vec::new();
        std::mem::swap(&mut queue, &mut self.queue);
        insert_by_sector(&mut queue, request);
        self.queue = queue;
    }

    fn get_next_request(&mut self, current_sector: u32) -> (next: Option<Request>)
        ensures
            ascending(final(self)@.queue),
    {
        proof {
            use_type_invariant(&*self);
            lemma_scan_keeps_ascending(self.queue@, self.direction, current_sector);
        }
        let mut queue: Vec<Request> = Vec::new();
        std::mem::swap(&mut queue, &mut self.queue);
        let (outward, next) = scan_queue(&mut queue, self.direction, current_sector);
        self.queue = queue;
        self.direction = outward;
        next
    }
}

/// Within one sweep the sectors served never turn back: moving outward each
/// is at least the one before it and none lies before the head's first
/// position; moving inward each is at most the one before it and none lies
/// beyond the head's first position.
pub proof fn lemma_look_sweep_is_monotone(state: LookState, position: u32, limit: nat)
    ensures
        keeps_direction(sweep::<LookScheduler>(state, position, limit), position, state.outward),
    decreases limit,
{
    if limit > 0 {
        lemma_scan_direction(state.queue, state.outward, position);
        match LookScheduler::dispatched(state, position) {
            (next, Some(request)) => {
                lemma_look_sweep_is_monotone(next, request.sector, (limit - 1) as nat);
            },
            (_, None) => {},
        }
    }
}

} // verus!
