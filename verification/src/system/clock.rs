//! How far the clock can run: a bound that can be computed before the
//! simulation starts.

use vstd::prelude::*;
use std::collections::VecDeque;
use crate::disk::{Disk, lemma_sector_cost_is_natural};
use crate::process::{Process, ProcessState, states_of};
use crate::scheduler::{Request, Scheduler};
use crate::system::model::{
    SystemState, Progress, Turn, ran, stepped, begun, drained, served, idle, may_serve, work_left,
    lemma_stepped_lowers_work, lemma_drained,
};

verus! {

/// The most that a request for `sector` can take: the cost of fetching it from
/// the disk, and at least the one unit that a resident sector takes.
pub open spec fn ceiling_of(disk: Disk, sector: u32) -> int {
    if disk.sector_cost(sector) > 1 {
        disk.sector_cost(sector)
    } else {
        1
    }
}

/// The most that `requests` can take together.
pub open spec fn requests_ceiling(disk: Disk, requests: Seq<Request>) -> int
    decreases requests.len(),
{
    if requests.len() == 0 {
        0
    } else {
        requests_ceiling(disk, requests.drop_last()) + ceiling_of(disk, requests.last().sector)
    }
}

/// The most that the pending requests of the processes of `queue` can take
/// together.
pub open spec fn queue_ceiling(disk: Disk, queue: Seq<ProcessState>) -> int
    decreases queue.len(),
{
    if queue.len() == 0 {
        0
    } else {
        queue_ceiling(disk, queue.drop_last()) + requests_ceiling(disk, queue.last().requests)
    }
}

/// The time that the clock shows at the halt where every pending request has
/// to go to the disk. The clock never gets further than this.
pub open spec fn latest_halt<V>(state: SystemState<V>) -> int {
    state.current_time + queue_ceiling(state.disk, state.queues.run_q) + queue_ceiling(
        state.disk,
        state.queues.sleep_q,
    )
}

/// No batch of requests takes less than nothing, and a batch takes at least
/// as long as any of its beginnings.
pub proof fn lemma_requests_ceiling_grows(disk: Disk, requests: Seq<Request>, upto: int)
    requires
        0 <= upto <= requests.len(),
    ensures
        0 <= requests_ceiling(disk, requests.take(upto)) <= requests_ceiling(disk, requests),
    decreases requests.len(),
{
    if requests.len() == 0 {
        assert(requests.take(upto) =~= requests);
    } else if upto == requests.len() {
        assert(requests.take(upto) =~= requests);
        lemma_requests_ceiling_grows(disk, requests.drop_last(), 0);
        assert(requests.drop_last().take(0) =~= Seq::<Request>::empty());
    } else {
        lemma_requests_ceiling_grows(disk, requests.drop_last(), upto);
        assert(requests.drop_last().take(upto) =~= requests.take(upto));
    }
}

/// No queue takes less than nothing, and a queue takes at least as long as
/// any of its beginnings.
pub proof fn lemma_queue_ceiling_grows(disk: Disk, queue: Seq<ProcessState>, upto: int)
    requires
        0 <= upto <= queue.len(),
    ensures
        0 <= queue_ceiling(disk, queue.take(upto)) <= queue_ceiling(disk, queue),
    decreases queue.len(),
{
    if queue.len() == 0 {
        assert(queue.take(upto) =~= queue);
    } else {
        lemma_requests_ceiling_grows(disk, queue.last().requests, 0);
        assert(queue.last().requests.take(0) =~= Seq::<Request>::empty());
        if upto == queue.len() {
            assert(queue.take(upto) =~= queue);
            lemma_queue_ceiling_grows(disk, queue.drop_last(), 0);
            assert(queue.drop_last().take(0) =~= Seq::<ProcessState>::empty());
        } else {
            lemma_queue_ceiling_grows(disk, queue.drop_last(), upto);
            assert(queue.drop_last().take(upto) =~= queue.take(upto));
        }
    }
}

/// Putting a process at the back of a queue adds what its requests can take.
pub proof fn lemma_queue_ceiling_push(disk: Disk, queue: Seq<ProcessState>, process: ProcessState)
    ensures
        queue_ceiling(disk, queue.push(process)) == queue_ceiling(disk, queue) + requests_ceiling(
            disk,
            process.requests,
        ),
{
    assert(queue.push(process).drop_last() =~= queue);
}

/// Taking the process at the front of a queue removes what its requests can
/// take.
pub proof fn lemma_queue_ceiling_drop_first(disk: Disk, queue: Seq<ProcessState>)
    requires
        queue.len() > 0,
    ensures
        queue_ceiling(disk, queue.drop_first()) + requests_ceiling(disk, queue.first().requests)
            == queue_ceiling(disk, queue),
    decreases queue.len(),
{
    if queue.len() > 1 {
        lemma_queue_ceiling_drop_first(disk, queue.drop_last());
        assert(queue.drop_last().drop_first() =~= queue.drop_first().drop_last());
    } else {
        assert(queue.drop_first() =~= Seq::<ProcessState>::empty());
        assert(queue.drop_last() =~= Seq::<ProcessState>::empty());
    }
}

/// A turn advances the clock by no more than the requests it serves can take.
pub proof fn lemma_drained_within_ceiling<S: Scheduler>(turn: Turn<S::V>)
    requires
        turn.progress.state.disk.wf(),
    ensures
        drained::<S>(turn).progress.state.current_time + requests_ceiling(
            turn.progress.state.disk,
            drained::<S>(turn).process.requests,
        ) <= turn.progress.state.current_time + requests_ceiling(
            turn.progress.state.disk,
            turn.process.requests,
        ),
    decreases turn.process.requests.len(),
{
    if may_serve(turn) {
        lemma_drained_within_ceiling::<S>(served::<S>(turn));
    }
}

/// A round of the main loop never moves the latest possible halt further away.
pub proof fn lemma_stepped_within_latest_halt<S: Scheduler>(progress: Progress<S::V>)
    requires
        progress.state.disk.wf(),
    ensures
        latest_halt(stepped::<S>(progress).state) <= latest_halt(progress.state),
{
    let state = progress.state;
    if state.queues.run_q.len() > 0 {
        let turn = begun::<S>(progress);
        lemma_queue_ceiling_drop_first(state.disk, state.queues.run_q);
        lemma_drained::<S>(turn);
        lemma_drained_within_ceiling::<S>(turn);
        let last = drained::<S>(turn);
        if last.process.requests.len() > 0 {
            let rested = ProcessState { time_remaining: state.quantum_time, ..last.process };
            lemma_queue_ceiling_push(state.disk, state.queues.sleep_q, rested);
        } else {
            assert(last.process.requests =~= Seq::<Request>::empty());
        }
    } else if state.queues.sleep_q.len() > 0 {
        lemma_queue_ceiling_drop_first(state.disk, state.queues.sleep_q);
        lemma_queue_ceiling_push(state.disk, state.queues.run_q, state.queues.sleep_q.first());
    }
}

/// The clock at the halt shows no more than the latest possible halt of the
/// state the simulation started from.
pub proof fn lemma_ran_within_latest_halt<S: Scheduler>(progress: Progress<S::V>)
    requires
        progress.state.quantum_time > 0,
        progress.state.disk.wf(),
    ensures
        ran::<S>(progress).state.current_time <= latest_halt(progress.state),
    decreases work_left(progress.state),
{
    if idle(progress.state) {
        assert(progress.state.queues.run_q =~= Seq::<ProcessState>::empty());
        assert(progress.state.queues.sleep_q =~= Seq::<ProcessState>::empty());
    } else {
        lemma_stepped_lowers_work::<S>(progress);
        lemma_stepped_within_latest_halt::<S>(progress);
        lemma_ran_within_latest_halt::<S>(stepped::<S>(progress));
    }
}

/// Takes off `budget` the most that a request for `sector` can take. Returns
/// what is left, or `None` where the budget does not reach.
fn spend_on_sector(disk: &Disk, sector: u32, budget: u64) -> (left: Option<u64>)
    ensures
        match left {
            Some(rest) => rest == budget - ceiling_of(*disk, sector),
            None => budget < ceiling_of(*disk, sector),
        },
{
    proof {
        use_type_invariant(disk);
        lemma_sector_cost_is_natural(*disk, sector);
    }
    let (track, _) = disk.get_track_sector(sector);
    let seek: u64 = disk.next_track_seek_time() as u64;
    assert(track as u64 * seek <= 0xffff_ffff * 0xffff_ffff) by (nonlinear_arith)
        requires
            track <= 0xffff_ffff,
            seek <= 0xffff_ffff,
    ;
    let cost: u64 = track as u64 * seek + disk.rotation_latency_time() as u64
        + disk.sector_access_time() as u64;
    let ceiling: u64 = if cost > 1 {
        cost
    } else {
        1
    };
    if ceiling > budget {
        None
    } else {
        Some(budget - ceiling)
    }
}

/// Takes off `budget` the most that `requests` can take together. Returns
/// what is left, or `None` where the budget does not reach.
fn spend_on_requests(disk: &Disk, requests: &Vec<Request>, budget: u64) -> (left: Option<u64>)
    ensures
        match left {
            Some(rest) => rest == budget - requests_ceiling(*disk, requests@),
            None => budget < requests_ceiling(*disk, requests@),
        },
{
    let mut rest: u64 = budget;
    let mut done: usize = 0;
    while done < requests.len()
        invariant
            done <= requests@.len(),
            rest == budget - requests_ceiling(*disk, requests@.take(done as int)),
        decreases requests@.len() - done,
    {
        assert(requests@.take(done + 1).drop_last() =~= requests@.take(done as int));
        match spend_on_sector(disk, requests[done].sector, rest) {
            Some(after) => {
                rest = after;
            },
            None => {
                proof {
                    lemma_requests_ceiling_grows(*disk, requests@, done + 1);
                }
                return None;
            },
        }
        done += 1;
    }
    assert(requests@.take(done as int) =~= requests@);
    Some(rest)
}

/// Takes off `budget` the most that the pending requests of the processes of
/// `queue` can take together. Returns what is left, or `None` where the
/// budget does not reach.
fn spend_on_queue(disk: &Disk, queue: &VecDeque<Process>, budget: u64) -> (left: Option<u64>)
    ensures
        match left {
            Some(rest) => rest == budget - queue_ceiling(*disk, states_of(queue@)),
            None => budget < queue_ceiling(*disk, states_of(queue@)),
        },
{
    let mut rest: u64 = budget;
    let mut done: usize = 0;
    while done < queue.len()
        invariant
            done <= queue@.len(),
            rest == budget - queue_ceiling(*disk, states_of(queue@).take(done as int)),
        decreases queue@.len() - done,
    {
        assert(states_of(queue@).take(done + 1).drop_last() =~= states_of(queue@).take(
            done as int,
        ));
        match spend_on_requests(disk, &queue[done].requests, rest) {
            Some(after) => {
                rest = after;
            },
            None => {
                proof {
                    lemma_queue_ceiling_grows(*disk, states_of(queue@), done + 1);
                }
                return None;
            },
        }
        done += 1;
    }
    assert(states_of(queue@).take(done as int) =~= states_of(queue@));
    Some(rest)
}

/// Whether the most that the pending requests of both queues can take fits
/// into `budget`.
pub(crate) fn queues_within(
    disk: &Disk,
    run_q: &VecDeque<Process>,
    sleep_q: &VecDeque<Process>,
    budget: u64,
) -> (fits: bool)
    ensures
        fits == (queue_ceiling(*disk, states_of(run_q@)) + queue_ceiling(
            *disk,
            states_of(sleep_q@),
        ) <= budget),
{
    proof {
        lemma_queue_ceiling_grows(*disk, states_of(sleep_q@), 0);
        lemma_queue_ceiling_grows(*disk, states_of(run_q@), 0);
    }
    match spend_on_queue(disk, run_q, budget) {
        Some(rest) => spend_on_queue(disk, sleep_q, rest).is_some(),
        None => false,
    }
}

} // verus!
