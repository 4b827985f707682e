//! The simulator: one process at a time, against the cache and the disk.

use vstd::prelude::*;
use crate::cache::LfuCache;
use crate::cache::model::lemma_absent_is_uncounted;
use crate::disk::{Disk, lemma_sector_cost_is_natural};
use crate::process::{Process, ProcessManager, QueuesState, states_of};
use crate::scheduler::{Scheduler, enqueued_all};

pub mod model;
pub mod clock;

pub use model::{Event, SystemState, Progress, Turn};
use model::{
    ran, stepped, begun, drained, served, work_left, latency_of, lemma_stepped_lowers_work,
    lemma_stepped_advances_clock, lemma_ran_advances_clock, lemma_drained_advances_clock,
    lemma_ran_halts,
};
use clock::{latest_halt, queues_within, lemma_ran_within_latest_halt};

verus! {

/// The simulator. It owns the scheduler, the cache, the disk and the two
/// process queues, and advances a clock as it serves requests.
pub struct System<S: Scheduler> {
    pub process_manager: ProcessManager,
    pub scheduler: S,
    pub quantum_time: u32,
    pub current_time: u32,
    pub cache: LfuCache,
    pub disk: Disk,
}

impl<S: Scheduler> View for System<S> {
    type V = SystemState<S::V>;

    open spec fn view(&self) -> SystemState<S::V> {
        SystemState {
            queues: self.process_manager@,
            scheduler: self.scheduler@,
            quantum_time: self.quantum_time,
            current_time: self.current_time as int,
            cache: self.cache@,
            disk: self.disk,
        }
    }
}

impl<S: Scheduler> System<S> {
    /// The simulator before it has run, with nothing reported yet.
    pub open spec fn at_start(&self) -> Progress<S::V> {
        Progress { state: self@, events: Seq::empty() }
    }

    /// A simulator with empty queues and the clock at zero.
    pub fn new(scheduler: S, cache: LfuCache, disk: Disk, quantum_time: u32) -> (made: Self)
        ensures
            made@ == (SystemState {
                queues: QueuesState { run_q: Seq::empty(), sleep_q: Seq::empty() },
                scheduler: scheduler@,
                quantum_time,
                current_time: 0,
                cache: cache@,
                disk,
            }),
    {
        System {
            process_manager: ProcessManager::new(),
            scheduler,
            quantum_time,
            current_time: 0,
            cache,
            disk,
        }
    }

    /// Registers every pending request of `process` with the scheduler.
    fn register(&mut self, process: &Process)
        ensures
            final(self)@ == (SystemState {
                scheduler: enqueued_all::<S>(old(self)@.scheduler, process@.requests),
                ..old(self)@
            }),
            final(self).cache == old(self).cache,
            final(self).process_manager == old(self).process_manager,
    {
        let mut done: usize = 0;
        assert(process.requests@.skip(0) =~= process.requests@);
        while done < process.requests.len()
            invariant
                done <= process.requests@.len(),
                enqueued_all::<S>(self.scheduler@, process.requests@.skip(done as int))
                    == enqueued_all::<S>(old(self)@.scheduler, process.requests@),
                self.process_manager == old(self).process_manager,
                self.quantum_time == old(self).quantum_time,
                self.current_time == old(self).current_time,
                self.cache == old(self).cache,
                self.disk == old(self).disk,
            decreases process.requests@.len() - done,
        {
            assert(process.requests@.skip(done as int).drop_first() =~= process.requests@.skip(
                done + 1,
            ));
            self.scheduler.add_request(process.requests[done]);
            done += 1;
        }
    }

    /// Serves the next request of `process`: from the cache where its sector
    /// is resident, from the disk where it is not.
    fn serve(&mut self, process: &mut Process, events: &mut Vec<Event>)
        requires
            old(process)@.time_remaining > 0,
            old(process)@.requests.len() > 0,
            old(self)@.current_time + latency_of(
                old(self)@.cache,
                old(self)@.disk,
                old(process)@.requests.last().sector,
            ) <= u32::MAX,
        ensures
            (Turn {
                progress: Progress { state: final(self)@, events: final(events)@ },
                process: final(process)@,
            }) == served::<S>(
                Turn {
                    progress: Progress { state: old(self)@, events: old(events)@ },
                    process: old(process)@,
                },
            ),
            final(self).process_manager == old(self).process_manager,
    {
        proof {
            use_type_invariant(&self.disk);
            lemma_sector_cost_is_natural(self.disk, process@.requests.last().sector);
        }
        let request = process.next_request().unwrap();
        let hit = self.cache.contains(request.sector);
        let latency: u32;
        if hit {
            latency = 1;
            self.current_time += 1;
        } else {
            let (track, sector_offset) = self.disk.get_track_sector(request.sector);
            latency = self.disk.simulate_access(track, sector_offset);
            self.current_time += latency;
            proof {
                lemma_absent_is_uncounted(self.cache@, request.sector);
            }
            self.cache.access(request.sector);
        }
        process.time_remaining -= 1;
        events.push(
            Event::RequestServiced {
                sector: request.sector,
                kind: request.operation,
                hit,
                latency,
            },
        );
        let _ = self.scheduler.get_next_request(self.current_time);
    }

    /// Runs the simulation until both queues are empty, and returns what
    /// happened on the way.
    ///
    /// The process at the front of the run queue has its pending requests
    /// registered with the scheduler and then makes requests, the one appended
    /// last first, until it has none left or its quantum is used up; with
    /// requests left it goes to sleep with a full quantum. When the run queue
    /// is empty the longest sleeper returns to it. The scheduler performs one
    /// dispatch for each request served, with the head at the time then
    /// reached; what it hands out does not steer the service.
    ///
    /// The quantum must not be zero, or a process with requests left would
    /// sleep for ever; and the time at the halt must fit the clock, which
    /// `clock_suffices` tests and `try_run` tests before it runs.
    pub fn run(&mut self) -> (events: Vec<Event>)
        requires
            old(self).quantum_time > 0,
            ran::<S>(old(self).at_start()).state.current_time <= u32::MAX,
        ensures
            final(self)@ == ran::<S>(old(self).at_start()).state,
            events@ == ran::<S>(old(self).at_start()).events,
            final(self)@.queues.run_q.len() == 0,
            final(self)@.queues.sleep_q.len() == 0,
            final(self).quantum_time == old(self).quantum_time,
            final(self).disk == old(self).disk,
            old(self).current_time <= final(self).current_time,
            events@.len() > 0,
            events@.last() == (Event::Halted { final_time: final(self).current_time }),
    {
        let mut events: Vec<Event> = Vec::new();
        proof {
            use_type_invariant(&self.disk);
            lemma_ran_halts::<S>(self.at_start());
            lemma_ran_advances_clock::<S>(self.at_start());
        }
        while self.process_manager.run_q.len() > 0 || self.process_manager.sleep_q.len() > 0
            invariant
                self.quantum_time > 0,
                self.disk.wf(),
                ran::<S>(Progress { state: self@, events: events@ }) == ran::<S>(
                    old(self).at_start(),
                ),
                ran::<S>(old(self).at_start()).state.current_time <= u32::MAX,
            decreases work_left(self@),
        {
            let ghost before = Progress { state: self@, events: events@ };
            proof {
                lemma_stepped_lowers_work::<S>(before);
                lemma_stepped_advances_clock::<S>(before);
                lemma_ran_advances_clock::<S>(stepped::<S>(before));
            }
            if let Some(mut process) = self.process_manager.run_q.pop_front() {
                assert(states_of(self.process_manager.run_q@)
                    =~= before.state.queues.run_q.drop_first());
                events.push(Event::ProcessStarted { id: process.id });
                self.register(&process);
                let ghost start = Turn {
                    progress: Progress { state: self@, events: events@ },
                    process: process@,
                };
                assert(start == begun::<S>(before));
                while process.time_remaining > 0 && process.has_requests()
                    invariant
                        self.disk.wf(),
                        self.quantum_time == before.state.quantum_time,
                        self.process_manager@ == start.progress.state.queues,
                        drained::<S>(
                            Turn {
                                progress: Progress { state: self@, events: events@ },
                                process: process@,
                            },
                        ) == drained::<S>(start),
                        drained::<S>(start).progress.state.current_time <= u32::MAX,
                    decreases process.requests@.len(),
                {
                    proof {
                        lemma_drained_advances_clock::<S>(
                            Turn {
                                progress: Progress { state: self@, events: events@ },
                                process: process@,
                            },
                        );
                    }
                    self.serve(&mut process, &mut events);
                }
                if process.has_requests() {
                    process.time_remaining = self.quantum_time;
                    events.push(Event::ProcessSlept { id: process.id });
                    self.process_manager.sleep_q.push_back(process);
                    assert(states_of(self.process_manager.sleep_q@)
                        =~= start.progress.state.queues.sleep_q.push(process@));
                } else {
                    events.push(Event::ProcessCompleted { id: process.id });
                }
            } else if let Some(process) = self.process_manager.sleep_q.pop_front() {
                events.push(Event::ProcessWoken { id: process.id });
                self.process_manager.run_q.push_back(process);
                assert(states_of(self.process_manager.sleep_q@)
                    =~= before.state.queues.sleep_q.drop_first());
                assert(states_of(self.process_manager.run_q@) =~= before.state.queues.run_q.push(
                    process@,
                ));
            }
            assert(Progress { state: self@, events: events@ } == stepped::<S>(before));
        }
        events.push(Event::Halted { final_time: self.current_time });
        events
    }

    /// Whether the clock is certain to stay within a `u32` until the halt: it
    /// is where it would still do so if every pending request had to go to
    /// the disk.
    pub fn clock_suffices(&self) -> (fits: bool)
        ensures
            fits == (latest_halt(self@) <= u32::MAX),
    {
        let budget: u64 = (u32::MAX - self.current_time) as u64;
        queues_within(
            &self.disk,
            &self.process_manager.run_q,
            &self.process_manager.sleep_q,
            budget,
        )
    }

    /// Runs the simulation where it is certain to come to an end within the
    /// range of the clock, and returns what happened on the way. Where the
    /// quantum is zero or the clock might not suffice, nothing runs and
    /// nothing changes.
    pub fn try_run(&mut self) -> (events: Option<Vec<Event>>)
        ensures
            events.is_some() <==> old(self).quantum_time > 0 && latest_halt(old(self)@)
                <= u32::MAX,
            events matches Some(log) ==> final(self)@ == ran::<S>(old(self).at_start()).state
                && log@ == ran::<S>(old(self).at_start()).events,
            events.is_none() ==> *final(self) == *old(self),
    {
        if self.quantum_time > 0 && self.clock_suffices() {
            proof {
                use_type_invariant(&self.disk);
                lemma_ran_within_latest_halt::<S>(self.at_start());
            }
            Some(self.run())
        } else {
            None
        }
    }
}

} // verus!
