//! Processes, and the two queues in which they wait for their turn.

use vstd::prelude::*;
use std::collections::VecDeque;
use crate::scheduler::Request;

verus! {

/// A process: the requests it still has to make, and what is left of its
/// current quantum.
#[derive(Debug)]
pub struct Process {
    pub id: u32,
    /// The pending requests. The process makes the last of them first.
    pub requests: Vec<Request>,
    /// How many more requests the process may make before it has to sleep.
    pub time_remaining: u32,
}

/// The mathematical state of a process.
pub struct ProcessState {
    pub id: u32,
    pub requests: Seq<Request>,
    pub time_remaining: u32,
}

impl View for Process {
    type V = ProcessState;

    open spec fn view(&self) -> ProcessState {
        ProcessState {
            id: self.id,
            requests: self.requests@,
            time_remaining: self.time_remaining,
        }
    }
}

impl Process {
    /// A process with a full quantum.
    pub fn new(id: u32, requests: Vec<Request>, quantum_time: u32) -> (made: Self)
        ensures
            made@ == (ProcessState { id, requests: requests@, time_remaining: quantum_time }),
    {
        Process { id, requests, time_remaining: quantum_time }
    }

    /// Whether the process still has a request to make.
    pub fn has_requests(&self) -> (pending: bool)
        ensures
            pending == (self@.requests.len() > 0),
    {
        self.requests.len() > 0
    }

    /// Removes and returns the request that was appended last.
    pub fn next_request(&mut self) -> (next: Option<Request>)
        ensures
            final(self).id == old(self).id,
            final(self).time_remaining == old(self).time_remaining,
            old(self)@.requests.len() == 0 ==> next.is_none() && final(self)@.requests == old(
                self,
            )@.requests,
            old(self)@.requests.len() > 0 ==> next == Some(old(self)@.requests.last())
                && final(self)@.requests == old(self)@.requests.drop_last(),
    {
        self.requests.pop()
    }
}

/// The views of the processes of `queue`, front first.
pub open spec fn states_of(queue: Seq<Process>) -> Seq<ProcessState> {
    queue.map_values(|process: Process| process@)
}

/// The first index from `from` on whose process has the identifier `id`, or
/// the length of `queue` where there is none.
pub open spec fn slot_of_id(queue: Seq<ProcessState>, id: u32, from: int) -> int
    decreases queue.len() - from,
{
    if from < 0 || from >= queue.len() {
        queue.len() as int
    } else if queue[from].id == id {
        from
    } else {
        slot_of_id(queue, id, from + 1)
    }
}

/// The mathematical state of the two queues.
pub struct QueuesState {
    /// The processes ready to run, the next one first.
    pub run_q: Seq<ProcessState>,
    /// The processes that used up their quantum, the longest sleeper first.
    pub sleep_q: Seq<ProcessState>,
}

impl QueuesState {
    /// The queues after the first process of `from` with the identifier `id`
    /// has moved to the back of `to`; both as they were where `from` holds
    /// no such process.
    pub open spec fn relocated(from: Seq<ProcessState>, to: Seq<ProcessState>, id: u32) -> (
        Seq<ProcessState>,
        Seq<ProcessState>,
    ) {
        let at = slot_of_id(from, id, 0);
        if at < from.len() {
            (from.remove(at), to.push(from[at]))
        } else {
            (from, to)
        }
    }

    /// The queues after the first ready process with the identifier `id` has
    /// gone to sleep.
    pub open spec fn moved_to_sleep(self, id: u32) -> QueuesState {
        let (run_q, sleep_q) = Self::relocated(self.run_q, self.sleep_q, id);
        QueuesState { run_q, sleep_q }
    }

    /// The queues after the first sleeping process with the identifier `id`
    /// has become ready.
    pub open spec fn woken_up(self, id: u32) -> QueuesState {
        let (sleep_q, run_q) = Self::relocated(self.sleep_q, self.run_q, id);
        QueuesState { run_q, sleep_q }
    }
}

/// The run queue and the sleep queue. A process is in one of them, or in the
/// hands of the simulator while it runs.
pub struct ProcessManager {
    pub run_q: VecDeque<Process>,
    pub sleep_q: VecDeque<Process>,
}

impl View for ProcessManager {
    type V = QueuesState;

    open spec fn view(&self) -> QueuesState {
        QueuesState { run_q: states_of(self.run_q@), sleep_q: states_of(self.sleep_q@) }
    }
}

/// Moves the first process of `from` with the identifier `id` to the back of
/// `to`, and says whether there was one.
fn relocate(from: &mut VecDeque<Process>, to: &mut VecDeque<Process>, id: u32) -> (found: bool)
    ensures
        (states_of(final(from)@), states_of(final(to)@)) == QueuesState::relocated(
            states_of(old(from)@),
            states_of(old(to)@),
            id,
        ),
        found == (slot_of_id(states_of(old(from)@), id, 0) < old(from)@.len()),
{
    let mut at: usize = 0;
    while at < from.len()
        invariant
            at <= from@.len(),
            from@ == old(from)@,
            to@ == old(to)@,
            slot_of_id(states_of(from@), id, 0) == slot_of_id(states_of(from@), id, at as int),
        decreases from@.len() - at,
    {
        if from[at].id == id {
            let process = from.remove(at).unwrap();
            to.push_back(process);
            assert(states_of(from@) =~= states_of(old(from)@).remove(at as int));
            assert(states_of(to@) =~= states_of(old(to)@).push(process@));
            return true;
        }
        at += 1;
    }
    false
}

impl ProcessManager {
    /// A manager with both queues empty.
    pub fn new() -> (made: Self)
        ensures
            made@.run_q == Seq::<ProcessState>::empty(),
            made@.sleep_q == Seq::<ProcessState>::empty(),
    {
        let made = ProcessManager { run_q: VecDeque::new(), sleep_q: VecDeque::new() };
        assert(made@.run_q =~= Seq::<ProcessState>::empty());
        assert(made@.sleep_q =~= Seq::<ProcessState>::empty());
        made
    }

    /// Puts `process` at the back of the run queue.
    pub fn add_process(&mut self, process: Process)
        ensures
            final(self)@.run_q == old(self)@.run_q.push(process@),
            final(self)@.sleep_q == old(self)@.sleep_q,
    {
        self.run_q.push_back(process);
        assert(states_of(self.run_q@) =~= states_of(old(self).run_q@).push(process@));
    }

    /// Moves the first ready process with the identifier `process_id` to the
    /// back of the sleep queue. Returns whether there was such a process;
    /// where there was none, nothing changes.
    pub fn move_to_sleep(&mut self, process_id: u32) -> (found: bool)
        ensures
            final(self)@ == old(self)@.moved_to_sleep(process_id),
            found == (slot_of_id(old(self)@.run_q, process_id, 0) < old(self)@.run_q.len()),
    {
        relocate(&mut self.run_q, &mut self.sleep_q, process_id)
    }

    /// Moves the first sleeping process with the identifier `process_id` to
    /// the back of the run queue. Returns whether there was such a process;
    /// where there was none, nothing changes.
    pub fn wake_up_process(&mut self, process_id: u32) -> (found: bool)
        ensures
            final(self)@ == old(self)@.woken_up(process_id),
            found == (slot_of_id(old(self)@.sleep_q, process_id, 0) < old(self)@.sleep_q.len()),
    {
        relocate(&mut self.sleep_q, &mut self.run_q, process_id)
    }
}

} // verus!
