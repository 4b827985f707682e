//! The simulation as a state machine on mathematical values.

use vstd::prelude::*;
use crate::cache::CacheState;
use crate::disk::{Disk, lemma_sector_cost_is_natural};
use crate::process::{ProcessState, QueuesState};
use crate::scheduler::{IoOperation, Scheduler, enqueued_all};

verus! {

/// What the simulator reports while it runs, in the order in which it happens.
#[derive(Debug, Clone, Copy, PartialEq, Eq, Structural)]
pub enum Event {
    /// A process left the run queue and began its turn.
    ProcessStarted { id: u32 },
    /// A request was served, from the cache (`hit`) or from the disk, and the
    /// clock advanced by `latency`.
    RequestServiced { sector: u32, kind: IoOperation, hit: bool, latency: u32 },
    /// A process used up its quantum with requests left and went to sleep.
    ProcessSlept { id: u32 },
    /// A sleeping process moved back to the run queue.
    ProcessWoken { id: u32 },
    /// A process made its last request.
    ProcessCompleted { id: u32 },
    /// Both queues are empty; the clock stands at `final_time`.
    Halted { final_time: u32 },
}

/// The mathematical state of the simulator. `V` is the state of its scheduler.
/// The clock is an unbounded integer here.
pub struct SystemState<V> {
    pub queues: QueuesState,
    pub scheduler: V,
    pub quantum_time: u32,
    pub current_time: int,
    pub cache: CacheState,
    pub disk: Disk,
}

/// The simulator together with the events it has reported so far.
pub struct Progress<V> {
    pub state: SystemState<V>,
    pub events: Seq<Event>,
}

/// A process in the middle of its turn, with the simulator around it.
pub struct Turn<V> {
    pub progress: Progress<V>,
    pub process: ProcessState,
}

/// The time that a request for `sector` takes: one unit where the sector is
/// resident, the cost of the disk access where it is not.
pub open spec fn latency_of(cache: CacheState, disk: Disk, sector: u32) -> int {
    if cache.contains(sector) {
        1
    } else {
        disk.sector_cost(sector)
    }
}

/// Whether the process of `turn` may make another request now: it has one,
/// and its quantum is not used up.
pub open spec fn may_serve<V>(turn: Turn<V>) -> bool {
    turn.process.time_remaining > 0 && turn.process.requests.len() > 0
}

/// The turn after the process has made its next request, the one appended
/// last.
///
/// A resident sector costs one unit of time and leaves the cache as it is. Any
/// other sector costs a disk access and is then registered with the cache.
/// Either way the process spends one unit of its quantum, the request is
/// reported, and the scheduler performs one dispatch with the head at the
/// new time.
pub open spec fn served<S: Scheduler>(turn: Turn<S::V>) -> Turn<S::V> {
    let state = turn.progress.state;
    let request = turn.process.requests.last();
    let hit = state.cache.contains(request.sector);
    let latency = latency_of(state.cache, state.disk, request.sector);
    let now = state.current_time + latency;
    Turn {
        progress: Progress {
            state: SystemState {
                scheduler: S::dispatched(state.scheduler, now as u32).0,
                current_time: now,
                cache: if hit {
                    state.cache
                } else {
                    state.cache.accessed(request.sector)
                },
                ..state
            },
            events: turn.progress.events.push(
                Event::RequestServiced {
                    sector: request.sector,
                    kind: request.operation,
                    hit,
                    latency: latency as u32,
                },
            ),
        },
        process: ProcessState {
            requests: turn.process.requests.drop_last(),
            time_remaining: (turn.process.time_remaining - 1) as u32,
            ..turn.process
        },
    }
}

/// The turn at its end: the process has made requests until it had none left
/// or its quantum was used up.
pub open spec fn drained<S: Scheduler>(turn: Turn<S::V>) -> Turn<S::V>
    decreases turn.process.requests.len(),
{
    if may_serve(turn) {
        drained::<S>(served::<S>(turn))
    } else {
        turn
    }
}

/// Whether both queues are empty.
pub open spec fn idle<V>(state: SystemState<V>) -> bool {
    state.queues.run_q.len() == 0 && state.queues.sleep_q.len() == 0
}

/// The turn of the process at the front of the run queue, at its start: the
/// process has left the queue, its start is reported, and each of its pending
/// requests is registered with the scheduler, the first appended first.
pub open spec fn begun<S: Scheduler>(progress: Progress<S::V>) -> Turn<S::V> {
    let state = progress.state;
    let process = state.queues.run_q.first();
    Turn {
        progress: Progress {
            state: SystemState {
                queues: QueuesState { run_q: state.queues.run_q.drop_first(), ..state.queues },
                scheduler: enqueued_all::<S>(state.scheduler, process.requests),
                ..state
            },
            events: progress.events.push(Event::ProcessStarted { id: process.id }),
        },
        process,
    }
}

/// The simulator after a turn has ended. A process with requests left gets a
/// full quantum and goes to the back of the sleep queue; any other process is
/// complete and is dropped.
pub open spec fn ended<V>(turn: Turn<V>) -> Progress<V> {
    let state = turn.progress.state;
    if turn.process.requests.len() > 0 {
        let rested = ProcessState { time_remaining: state.quantum_time, ..turn.process };
        Progress {
            state: SystemState {
                queues: QueuesState { sleep_q: state.queues.sleep_q.push(rested), ..state.queues },
                ..state
            },
            events: turn.progress.events.push(Event::ProcessSlept { id: turn.process.id }),
        }
    } else {
        Progress {
            state,
            events: turn.progress.events.push(Event::ProcessCompleted { id: turn.process.id }),
        }
    }
}

/// The simulator after the longest sleeper has moved to the back of the run
/// queue.
pub open spec fn rotated<V>(progress: Progress<V>) -> Progress<V> {
    let state = progress.state;
    let process = state.queues.sleep_q.first();
    Progress {
        state: SystemState {
            queues: QueuesState {
                run_q: state.queues.run_q.push(process),
                sleep_q: state.queues.sleep_q.drop_first(),
            },
            ..state
        },
        events: progress.events.push(Event::ProcessWoken { id: process.id }),
    }
}

/// One round of the main loop: the turn of the process at the front of the
/// run queue or, where the run queue is empty, the return of one sleeper.
pub open spec fn stepped<S: Scheduler>(progress: Progress<S::V>) -> Progress<S::V> {
    if progress.state.queues.run_q.len() > 0 {
        ended(drained::<S>(begun::<S>(progress)))
    } else if progress.state.queues.sleep_q.len() > 0 {
        rotated(progress)
    } else {
        progress
    }
}

/// What a process weighs in the measure of the work left: two for each pending
/// request, and two more where it has to sleep before it can make one.
pub open spec fn weight(process: ProcessState) -> nat {
    2 * process.requests.len() + if process.time_remaining == 0 && process.requests.len() > 0 {
        2nat
    } else {
        0nat
    }
}

/// The weight of a queue: that of its processes, and `place` for each of them.
pub open spec fn load(queue: Seq<ProcessState>, place: nat) -> nat
    decreases queue.len(),
{
    if queue.len() == 0 {
        0
    } else {
        load(queue.drop_last(), place) + weight(queue.last()) + place
    }
}

/// A measure of the work left, which every round of the main loop lowers.
pub open spec fn work_left<V>(state: SystemState<V>) -> nat {
    load(state.queues.run_q, 1) + load(state.queues.sleep_q, 2)
}

/// The simulator when the main loop has come to its end: rounds have followed
/// one another until both queues were empty, and the halt has been reported
/// with the time then reached.
pub open spec fn ran<S: Scheduler>(progress: Progress<S::V>) -> Progress<S::V>
    decreases work_left(progress.state),
    when progress.state.quantum_time > 0
    via ran_decreases::<S>
{
    if idle(progress.state) {
        Progress {
            state: progress.state,
            events: progress.events.push(
                Event::Halted { final_time: progress.state.current_time as u32 },
            ),
        }
    } else {
        ran::<S>(stepped::<S>(progress))
    }
}

#[via_fn]
proof fn ran_decreases<S: Scheduler>(progress: Progress<S::V>) {
    if !idle(progress.state) {
        lemma_stepped_lowers_work::<S>(progress);
    }
}

/// Putting a process at the back of a queue adds its weight and its place.
pub proof fn lemma_load_push(queue: Seq<ProcessState>, process: ProcessState, place: nat)
    ensures
        load(queue.push(process), place) == load(queue, place) + weight(process) + place,
{
    assert(queue.push(process).drop_last() =~= queue);
}

/// Taking the process at the front of a queue removes its weight and its place.
pub proof fn lemma_load_drop_first(queue: Seq<ProcessState>, place: nat)
    requires
        queue.len() > 0,
    ensures
        load(queue.drop_first(), place) + weight(queue.first()) + place == load(queue, place),
    decreases queue.len(),
{
    if queue.len() > 1 {
        lemma_load_drop_first(queue.drop_last(), place);
        assert(queue.drop_last().drop_first() =~= queue.drop_first().drop_last());
    } else {
        assert(queue.drop_first() =~= Seq::<ProcessState>::empty());
        assert(queue.drop_last() =~= Seq::<ProcessState>::empty());
    }
}

/// What a turn leaves as it found it, and what it can only lower: the queues,
/// the quantum and the disk stay; the process keeps its identifier and loses
/// requests from the back; where it still has requests its quantum is used
/// up; and where it could make a request at all it has made at least one.
pub proof fn lemma_drained<S: Scheduler>(turn: Turn<S::V>)
    ensures
        drained::<S>(turn).progress.state.queues == turn.progress.state.queues,
        drained::<S>(turn).progress.state.quantum_time == turn.progress.state.quantum_time,
        drained::<S>(turn).progress.state.disk == turn.progress.state.disk,
        drained::<S>(turn).process.id == turn.process.id,
        drained::<S>(turn).process.requests.len() <= turn.process.requests.len(),
        drained::<S>(turn).process.requests.len() > 0 ==> drained::<S>(
            turn,
        ).process.time_remaining == 0,
        may_serve(turn) ==> drained::<S>(turn).process.requests.len()
            < turn.process.requests.len(),
        !may_serve(drained::<S>(turn)),
    decreases turn.process.requests.len(),
{
    if may_serve(turn) {
        lemma_drained::<S>(served::<S>(turn));
    }
}

/// The clock never runs backwards during a turn.
pub proof fn lemma_drained_advances_clock<S: Scheduler>(turn: Turn<S::V>)
    requires
        turn.progress.state.disk.wf(),
    ensures
        turn.progress.state.current_time <= drained::<S>(turn).progress.state.current_time,
        may_serve(turn) ==> served::<S>(turn).progress.state.current_time <= drained::<S>(
            turn,
        ).progress.state.current_time,
        may_serve(turn) ==> 0 <= latency_of(
            turn.progress.state.cache,
            turn.progress.state.disk,
            turn.process.requests.last().sector,
        ),
    decreases turn.process.requests.len(),
{
    if may_serve(turn) {
        lemma_sector_cost_is_natural(
            turn.progress.state.disk,
            turn.process.requests.last().sector,
        );
        lemma_drained_advances_clock::<S>(served::<S>(turn));
    }
}

/// The clock never runs backwards during a round of the main loop.
pub proof fn lemma_stepped_advances_clock<S: Scheduler>(progress: Progress<S::V>)
    requires
        progress.state.disk.wf(),
    ensures
        progress.state.current_time <= stepped::<S>(progress).state.current_time,
        progress.state.queues.run_q.len() > 0 ==> stepped::<S>(progress).state.current_time
            == drained::<S>(begun::<S>(progress)).progress.state.current_time,
{
    if progress.state.queues.run_q.len() > 0 {
        lemma_drained_advances_clock::<S>(begun::<S>(progress));
    }
}

/// The clock never runs backwards: the time at the halt is at least the time
/// at any point before it.
pub proof fn lemma_ran_advances_clock<S: Scheduler>(progress: Progress<S::V>)
    requires
        progress.state.quantum_time > 0,
        progress.state.disk.wf(),
    ensures
        progress.state.current_time <= ran::<S>(progress).state.current_time,
    decreases work_left(progress.state),
{
    if !idle(progress.state) {
        lemma_stepped_lowers_work::<S>(progress);
        lemma_stepped_advances_clock::<S>(progress);
        lemma_ran_advances_clock::<S>(stepped::<S>(progress));
    }
}

/// A turn takes nothing back: what was reported before it is still there.
pub proof fn lemma_drained_keeps_events<S: Scheduler>(turn: Turn<S::V>)
    ensures
        turn.progress.events.is_prefix_of(drained::<S>(turn).progress.events),
    decreases turn.process.requests.len(),
{
    if may_serve(turn) {
        let next = served::<S>(turn);
        lemma_drained_keeps_events::<S>(next);
        let later = drained::<S>(next).progress.events;
        assert(next.progress.events =~= later.subrange(0, next.progress.events.len() as int));
        assert forall|i: int| 0 <= i < turn.progress.events.len() implies turn.progress.events[i]
            == later[i] by {
            assert(next.progress.events[i] == turn.progress.events[i]);
        }
    }
}

/// A round of the main loop takes nothing back: what was reported before it
/// is still there.
pub proof fn lemma_stepped_keeps_events<S: Scheduler>(progress: Progress<S::V>)
    ensures
        progress.events.is_prefix_of(stepped::<S>(progress).events),
{
    if progress.state.queues.run_q.len() > 0 {
        let turn = begun::<S>(progress);
        lemma_drained_keeps_events::<S>(turn);
        let later = drained::<S>(turn).progress.events;
        assert(turn.progress.events =~= later.subrange(0, turn.progress.events.len() as int));
        assert forall|i: int| 0 <= i < progress.events.len() implies progress.events[i]
            == stepped::<S>(progress).events[i] by {
            assert(turn.progress.events[i] == progress.events[i]);
            assert(later[i] == turn.progress.events[i]);
        }
    }
}

/// When the main loop has come to its end both queues are empty and the halt
/// is the last event reported, with the time that the clock shows then. What
/// was reported before is still there; the quantum and the disk are as they
/// were.
pub proof fn lemma_ran_halts<S: Scheduler>(progress: Progress<S::V>)
    requires
        progress.state.quantum_time > 0,
    ensures
        idle(ran::<S>(progress).state),
        progress.events.is_prefix_of(ran::<S>(progress).events),
        ran::<S>(progress).events.len() > progress.events.len(),
        ran::<S>(progress).events.last() == (Event::Halted {
            final_time: ran::<S>(progress).state.current_time as u32,
        }),
        ran::<S>(progress).state.quantum_time == progress.state.quantum_time,
        ran::<S>(progress).state.disk == progress.state.disk,
    decreases work_left(progress.state),
{
    if !idle(progress.state) {
        let next = stepped::<S>(progress);
        lemma_stepped_lowers_work::<S>(progress);
        lemma_stepped_keeps_events::<S>(progress);
        lemma_ran_halts::<S>(next);
        let all = ran::<S>(next).events;
        assert(next.events =~= all.subrange(0, next.events.len() as int));
        assert forall|i: int| 0 <= i < progress.events.len() implies progress.events[i]
            == all[i] by {
            assert(next.events[i] == progress.events[i]);
            assert(all[i] == next.events[i]);
        }
    }
}

/// Every round of the main loop lowers the measure of the work left.
pub proof fn lemma_stepped_lowers_work<S: Scheduler>(progress: Progress<S::V>)
    requires
        progress.state.quantum_time > 0,
        !idle(progress.state),
    ensures
        work_left(stepped::<S>(progress).state) < work_left(progress.state),
        stepped::<S>(progress).state.quantum_time == progress.state.quantum_time,
        stepped::<S>(progress).state.disk == progress.state.disk,
{
    let queues = progress.state.queues;
    if queues.run_q.len() > 0 {
        let turn = begun::<S>(progress);
        lemma_load_drop_first(queues.run_q, 1);
        lemma_drained::<S>(turn);
        let last = drained::<S>(turn);
        if last.process.requests.len() > 0 {
            let rested = ProcessState {
                time_remaining: progress.state.quantum_time,
                ..last.process
            };
            lemma_load_push(queues.sleep_q, rested, 2);
        }
    } else {
        lemma_load_drop_first(queues.sleep_q, 2);
        lemma_load_push(queues.run_q, queues.sleep_q.first(), 1);
    }
}

} // verus!
