//! FLOOK: LOOK over an active queue, with arrivals held back in a waiting queue.

use vstd::prelude::*;
use crate::scheduler::{
    Request, Scheduler, sweep, keeps_direction, dispatched_all, dispatch_trace,
};
use crate::scheduler::order::{
    ascending, sorted_by_sector, scan, sort_by_sector, scan_queue, lemma_sorted_by_sector,
    lemma_scan_keeps_ascending, lemma_scan_removes_one, lemma_scan_direction,
};

verus! {

/// Sweeps over an active queue as LOOK does, while new requests gather in a
/// waiting queue. Only when the active queue is empty do the two change
/// places, so that a stream of arrivals near the head cannot keep requests
/// further away from being served.
pub struct FlookScheduler {
    active_queue: Vec<Request>,
    waiting_queue: Vec<Request>,
    direction: bool,
}

/// The mathematical state of a FLOOK scheduler.
pub struct FlookState {
    /// The requests being drained, in ascending sector order.
    pub active: Seq<Request>,
    /// The requests that arrived since the last exchange, in arrival order.
    pub waiting: Seq<Request>,
    /// Whether the sweep moves towards higher sectors.
    pub outward: bool,
}

impl FlookState {
    /// The state in which a dispatch starts its scan: where the active queue
    /// is empty, the waiting queue has become the active one, sorted by
    /// sector, and a fresh waiting queue has taken its place.
    pub open spec fn exchanged(self) -> FlookState {
        if self.active.len() == 0 {
            FlookState {
                active: sorted_by_sector(self.waiting),
                waiting: Seq::empty(),
                outward: self.outward,
            }
        } else {
            self
        }
    }
}

impl View for FlookScheduler {
    type V = FlookState;

    closed spec fn view(&self) -> FlookState {
        FlookState {
            active: self.active_queue@,
            waiting: self.waiting_queue@,
            outward: self.direction,
        }
    }
}

impl FlookScheduler {
    /// The invariant of the scheduler: its active queue is in ascending
    /// sector order.
    #[verifier::type_invariant]
    pub open spec fn wf(self) -> bool {
        ascending(self@.active)
    }

    /// An empty scheduler that sweeps outward.
    pub fn new() -> (made: Self)
        ensures
            made@.active == Seq::<Request>::empty(),
            made@.waiting == Seq::<Request>::empty(),
            made@.outward,
    {
        FlookScheduler { active_queue: Vec::new(), waiting_queue: Vec::new(), direction: true }
    }

    /// The requests being drained, in ascending sector order.
    pub fn active_queue(&self) -> (pending: &Vec<Request>)
        ensures
            pending@ == self@.active,
            ascending(pending@),
    {
        proof {
            use_type_invariant(self);
        }
        &self.active_queue
    }

    /// The requests that arrived since the queues last changed places, in
    /// arrival order.
    pub fn waiting_queue(&self) -> (pending: &Vec<Request>)
        ensures
            pending@ == self@.waiting,
    {
        &self.waiting_queue
    }

    /// Whether the sweep moves outward, towards higher sectors.
    pub fn direction(&self) -> (outward: bool)
        ensures
            outward == self@.outward,
    {
        self.direction
    }
}

impl Scheduler for FlookScheduler {
    open spec fn enqueued(state: FlookState, request: Request) -> FlookState {
        FlookState {
            active: state.active,
            waiting: state.waiting.push(request),
            outward: state.outward,
        }
    }

    open spec fn dispatched(state: FlookState, position: u32) -> (FlookState, Option<Request>) {
        let ready = state.exchanged();
        let (active, outward, handed) = scan(ready.active, ready.outward, position);
        (FlookState { active, waiting: ready.waiting, outward }, handed)
    }

    fn add_request(&mut self, request: Request)
        ensures
            ascending(final(self)@.active),
    {
        proof {
            use_type_invariant(&*self);
        }
        let mut waiting: Vec<Request> = Vec::new();
        std::mem::swap(&mut waiting, &mut self.waiting_queue);
        waiting.push(request);
        self.waiting_queue = waiting;
    }

    fn get_next_request(&mut self, current_sector: u32) -> (next: Option<Request>)
        ensures
            ascending(final(self)@.active),
    {
        proof {
            use_type_invariant(&*self);
        }
        let mut active: Vec<Request> = Vec::new();
        std::mem::swap(&mut active, &mut self.active_queue);
        if active.len() == 0 {
            let mut waiting: Vec<Request> = Vec::new();
            std::mem::swap(&mut waiting, &mut self.waiting_queue);
            proof {
                lemma_sorted_by_sector(waiting@);
            }
            active = sort_by_sector(waiting);
        }
        proof {
            lemma_scan_keeps_ascending(active@, self.direction, current_sector);
        }
        let (outward, next) = scan_queue(&mut active, self.direction, current_sector);
        self.active_queue = active;
        self.direction = outward;
        next
    }
}

/// A request that arrives while the active queue still holds requests is not
/// served by the next dispatch, wherever its sector lies: the dispatch hands
/// out a request of the active queue, or nothing, and the newcomer stays at
/// the back of the waiting queue.
pub proof fn lemma_flook_arrival_waits(state: FlookState, request: Request, position: u32)
    requires
        state.active.len() > 0,
    ensures
        ({
            let arrived = FlookScheduler::enqueued(state, request);
            let (after, handed) = FlookScheduler::dispatched(arrived, position);
            &&& after.waiting == state.waiting.push(request)
            &&& match handed {
                Some(served) => exists|at: int|
                    0 <= at < state.active.len() && state.active[at] == served && after.active
                        == #[trigger] state.active.remove(at),
                None => after.active == state.active,
            }
        }),
{
    lemma_scan_removes_one(state.active, state.outward, position);
}

/// Whether none of the dispatches made from `state`, one for each head
/// position of `positions`, finds the active queue empty: the two queues do
/// not change places.
pub open spec fn without_exchange(state: FlookState, positions: Seq<u32>) -> bool
    decreases positions.len(),
{
    positions.len() == 0 || (state.active.len() > 0 && without_exchange(
        FlookScheduler::dispatched(state, positions.first()).0,
        positions.drop_first(),
    ))
}

/// As long as the two queues do not change places, the waiting queue stays as
/// it is and every request handed out is one of the active queue.
pub proof fn lemma_flook_waiting_is_spared(state: FlookState, positions: Seq<u32>)
    requires
        without_exchange(state, positions),
    ensures
        dispatched_all::<FlookScheduler>(state, positions).waiting == state.waiting,
        dispatch_trace::<FlookScheduler>(state, positions).len() == positions.len(),
        forall|i: int|
            0 <= i < positions.len() ==> (#[trigger] dispatch_trace::<FlookScheduler>(
                state,
                positions,
            )[i] matches Some(served) ==> state.active.contains(served)),
    decreases positions.len(),
{
    if positions.len() > 0 {
        let (next, handed) = FlookScheduler::dispatched(state, positions.first());
        lemma_scan_removes_one(state.active, state.outward, positions.first());
        lemma_flook_waiting_is_spared(next, positions.drop_first());
        let later = dispatch_trace::<FlookScheduler>(next, positions.drop_first());
        assert forall|served: Request| next.active.contains(served) implies state.active.contains(
            served,
        ) by {
            let k = choose|k: int| 0 <= k < next.active.len() && next.active[k] == served;
            if handed.is_some() {
                let at = choose|at: int|
                    0 <= at < state.active.len() && state.active[at] == handed.unwrap()
                        && next.active == state.active.remove(at);
                if k < at {
                    assert(state.active[k] == served);
                } else {
                    assert(state.active[k + 1] == served);
                }
            }
        }
        assert forall|i: int| 0 <= i < positions.len() implies (
        #[trigger] dispatch_trace::<FlookScheduler>(state, positions)[i] matches Some(served)
            ==> state.active.contains(served)) by {
            if i > 0 {
                assert(dispatch_trace::<FlookScheduler>(state, positions)[i] == later[i - 1]);
            }
        }
    }
}

/// A request that arrives while the active queue still holds requests is not
/// served before the two queues change places, however many dispatches are
/// made and wherever its sector lies: it stays at the back of the waiting
/// queue, and whatever is handed out meanwhile is a request of the active
/// queue.
pub proof fn lemma_flook_arrival_waits_for_exchange(
    state: FlookState,
    request: Request,
    positions: Seq<u32>,
)
    requires
        without_exchange(FlookScheduler::enqueued(state, request), positions),
    ensures
        dispatched_all::<FlookScheduler>(
            FlookScheduler::enqueued(state, request),
            positions,
        ).waiting == state.waiting.push(request),
        forall|i: int|
            0 <= i < positions.len() ==> (#[trigger] dispatch_trace::<FlookScheduler>(
                FlookScheduler::enqueued(state, request),
                positions,
            )[i] matches Some(served) ==> state.active.contains(served)),
{
    lemma_flook_waiting_is_spared(FlookScheduler::enqueued(state, request), positions);
}

/// Within one sweep the sectors served never turn back, also where the two
/// queues change places on the way: moving outward each is at least the one
/// before it and none lies before the head's first position; moving inward
/// each is at most the one before it and none lies beyond the head's first
/// position.
pub proof fn lemma_flook_sweep_is_monotone(state: FlookState, position: u32, limit: nat)
    ensures
        keeps_direction(sweep::<FlookScheduler>(state, position, limit), position, state.outward),
    decreases limit,
{
    if limit > 0 {
        let ready = state.exchanged();
        lemma_scan_direction(ready.active, ready.outward, position);
        match FlookScheduler::dispatched(state, position) {
            (next, Some(request)) => {
                lemma_flook_sweep_is_monotone(next, request.sector, (limit - 1) as nat);
            },
            (_, None) => {},
        }
    }
}

} // verus!
