//! Disk-scheduling policies: the order in which pending requests are served.

use vstd::prelude::*;

pub mod order;
pub mod fifo;
pub mod look;
pub mod flook;

pub use fifo::FifoScheduler;
pub use look::{LookScheduler, LookState};
pub use flook::{FlookScheduler, FlookState};

verus! {

/// What a request does to its sector.
#[derive(Debug, Clone, Copy, PartialEq, Eq, Structural)]
pub enum IoOperation {
    Read,
    Write,
}

/// One sector-level operation. A request has no identity beyond its two fields.
#[derive(Debug, Clone, Copy, PartialEq, Eq, Structural)]
pub struct Request {
    pub sector: u32,
    pub operation: IoOperation,
}

/// A policy that holds pending requests and hands them out one at a time.
///
/// The view of a scheduler is its mathematical state; `enqueued` and
/// `dispatched` say, on that state, what the two operations do.
pub trait Scheduler: View + Sized {
    /// The state after `request` has joined the pending requests.
    spec fn enqueued(state: Self::V, request: Request) -> Self::V;

    /// The state after one dispatch with the head at `position`, and the
    /// request that the dispatch hands out, if any.
    spec fn dispatched(state: Self::V, position: u32) -> (Self::V, Option<Request>);

    /// Takes `request` into the pending requests. Always succeeds.
    fn add_request(&mut self, request: Request)
        ensures
            final(self)@ == Self::enqueued(old(self)@, request),
    ;

    /// Removes and returns the next request for a head at `current_sector`, or
    /// returns `None` where the policy has nothing to serve on this call: its
    /// queue is empty, or a directional sweep has to turn round first.
    fn get_next_request(&mut self, current_sector: u32) -> (next: Option<Request>)
        ensures
            final(self)@ == Self::dispatched(old(self)@, current_sector).0,
            next == Self::dispatched(old(self)@, current_sector).1,
    ;
}

/// The state after every request of `requests` has been enqueued, front first.
pub open spec fn enqueued_all<S: Scheduler>(state: S::V, requests: Seq<Request>) -> S::V
    decreases requests.len(),
{
    if requests.len() == 0 {
        state
    } else {
        enqueued_all::<S>(S::enqueued(state, requests.first()), requests.drop_first())
    }
}

/// The state after successive dispatches, one for each head position of
/// `positions`, front first.
pub open spec fn dispatched_all<S: Scheduler>(state: S::V, positions: Seq<u32>) -> S::V
    decreases positions.len(),
{
    if positions.len() == 0 {
        state
    } else {
        dispatched_all::<S>(S::dispatched(state, positions.first()).0, positions.drop_first())
    }
}

/// What successive dispatches hand out, one for each head position of
/// `positions`, front first.
pub open spec fn dispatch_trace<S: Scheduler>(state: S::V, positions: Seq<u32>) -> Seq<
    Option<Request>,
>
    decreases positions.len(),
{
    if positions.len() == 0 {
        Seq::empty()
    } else {
        let (next, handed) = S::dispatched(state, positions.first());
        seq![handed] + dispatch_trace::<S>(next, positions.drop_first())
    }
}

/// What one sweep hands out: successive dispatches, each made with the head
/// on the sector of the request served before it, up to `limit` requests and
/// ending at the first dispatch that hands out nothing.
pub open spec fn sweep<S: Scheduler>(state: S::V, position: u32, limit: nat) -> Seq<Request>
    decreases limit,
{
    if limit == 0 {
        Seq::empty()
    } else {
        match S::dispatched(state, position) {
            (next, Some(request)) => seq![request] + sweep::<S>(
                next,
                request.sector,
                (limit - 1) as nat,
            ),
            (_, None) => Seq::empty(),
        }
    }
}

/// Whether the sectors of `served` never turn back: in the outward direction
/// none lies before `position` and each is at least the one before it; in the
/// inward direction none lies beyond `position` and each is at most the one
/// before it.
pub open spec fn keeps_direction(served: Seq<Request>, position: u32, outward: bool) -> bool {
    &&& forall|i: int|
        0 <= i < served.len() ==> if outward {
            position <= (#[trigger] served[i]).sector
        } else {
            position >= served[i].sector
        }
    &&& forall|i: int, j: int|
        0 <= i <= j < served.len() ==> if outward {
            (#[trigger] served[i]).sector <= (#[trigger] served[j]).sector
        } else {
            served[i].sector >= served[j].sector
        }
}

} // verus!
