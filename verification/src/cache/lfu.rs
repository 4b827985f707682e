//! The cache itself: three double-ended queues behind an invariant.

use vstd::prelude::*;
use std::collections::VecDeque;
use crate::error::ConfigError;
use crate::cache::model::{Buffer, CacheState, slot_of, coldest, touched, lemma_holds_iff_slot};
use crate::cache::laws::lemma_accessed_keeps_wf;

verus! {

/// Finds the buffer of `segment` that holds `sector`.
fn find_sector(segment: &VecDeque<Buffer>, sector: u32) -> (found: Option<usize>)
    ensures
        match found {
            Some(at) => at < segment@.len() && at == slot_of(segment@, sector, 0),
            None => slot_of(segment@, sector, 0) == segment@.len(),
        },
{
    let mut at: usize = 0;
    while at < segment.len()
        invariant
            at <= segment@.len(),
            slot_of(segment@, sector, 0) == slot_of(segment@, sector, at as int),
        decreases segment@.len() - at,
    {
        if segment[at].sector == sector {
            return Some(at);
        }
        at += 1;
    }
    None
}

/// Finds the coldest buffer of `segment`: the lowest access count, and among
/// equal counts the lowest sector.
fn coldest_index(segment: &VecDeque<Buffer>) -> (at: usize)
    requires
        segment@.len() > 0,
    ensures
        at == coldest(segment@, segment@.len() - 1),
        at < segment@.len(),
{
    let mut at: usize = 0;
    let mut seen: usize = 1;
    while seen < segment.len()
        invariant
            1 <= seen <= segment@.len(),
            at < seen,
            at == coldest(segment@, seen - 1),
        decreases segment@.len() - seen,
    {
        let candidate = segment[seen];
        let best = segment[at];
        if candidate.counter < best.counter || (candidate.counter == best.counter
            && candidate.sector < best.sector) {
            at = seen;
        }
        seen += 1;
    }
    at
}

/// The storage of the cache, without its invariant: while an access
/// rearranges the segments, one of them may stand a buffer over its capacity.
struct Segments {
    left: VecDeque<Buffer>,
    middle: VecDeque<Buffer>,
    right: VecDeque<Buffer>,
    left_max: usize,
    middle_max: usize,
    total_buffers: usize,
}

impl View for Segments {
    type V = CacheState;

    closed spec fn view(&self) -> CacheState {
        CacheState {
            left: self.left@,
            middle: self.middle@,
            right: self.right@,
            left_max: self.left_max as nat,
            middle_max: self.middle_max as nat,
            total_buffers: self.total_buffers as nat,
        }
    }
}

impl Segments {
    /// Empty segments of the given capacities.
    fn new(total_buffers: usize, left_max: usize, middle_max: usize) -> (made: Self)
        ensures
            made@ == CacheState::empty(total_buffers as nat, left_max as nat, middle_max as nat),
    {
        Segments {
            left: VecDeque::new(),
            middle: VecDeque::new(),
            right: VecDeque::new(),
            left_max,
            middle_max,
            total_buffers,
        }
    }

    /// Puts `buffer` at the front of the cold segment, and evicts the coldest
    /// buffer of the segment where it is over its capacity then.
    fn move_to_right(&mut self, buffer: Buffer)
        requires
            old(self)@.configured(),
        ensures
            final(self)@ == old(self)@.moved_to_right(buffer),
    {
        self.right.push_front(buffer);
        if self.right.len() > self.total_buffers - self.left_max - self.middle_max {
            let out = coldest_index(&self.right);
            self.right.remove(out);
        }
    }

    /// Puts `buffer` at the front of the warm segment, and moves the back of
    /// the segment on to the cold one where it is over its capacity then.
    fn move_to_middle(&mut self, buffer: Buffer)
        requires
            old(self)@.configured(),
        ensures
            final(self)@ == old(self)@.moved_to_middle(buffer),
    {
        self.middle.push_front(buffer);
        if self.middle.len() > self.middle_max {
            let back = self.middle.pop_back().unwrap();
            self.move_to_right(back);
        }
    }

    /// Puts `buffer` at the front of the hot segment, and moves the back of
    /// the segment on to the warm one where it is over its capacity then.
    fn move_to_left(&mut self, buffer: Buffer)
        requires
            old(self)@.configured(),
        ensures
            final(self)@ == old(self)@.moved_to_left(buffer),
    {
        self.left.push_front(buffer);
        if self.left.len() > self.left_max {
            let back = self.left.pop_back().unwrap();
            self.move_to_middle(back);
        }
    }

    /// Takes in a buffer for a sector that was not resident.
    fn add_to_left(&mut self, buffer: Buffer)
        requires
            old(self)@.configured(),
        ensures
            final(self)@ == old(self)@.moved_to_left(buffer),
    {
        self.move_to_left(buffer);
    }

    /// Registers one access to `sector`.
    fn access(&mut self, sector: u32)
        requires
            old(self)@.configured(),
            old(self)@.counter_of(sector) < u32::MAX,
        ensures
            final(self)@ == old(self)@.accessed(sector),
    {
        if let Some(at) = find_sector(&self.left, sector) {
            let buffer = self.left.remove(at).unwrap();
            self.left.insert(at, Buffer { sector: buffer.sector, counter: buffer.counter + 1 });
            assert(self.left@ =~= old(self).left@.update(
                at as int,
                touched(old(self).left@[at as int]),
            ));
        } else if let Some(at) = find_sector(&self.middle, sector) {
            let buffer = self.middle.remove(at).unwrap();
            self.move_to_left(Buffer { sector: buffer.sector, counter: buffer.counter + 1 });
        } else if let Some(at) = find_sector(&self.right, sector) {
            let buffer = self.right.remove(at).unwrap();
            self.move_to_left(Buffer { sector: buffer.sector, counter: buffer.counter + 1 });
        } else {
            self.add_to_left(Buffer { sector, counter: 1 });
        }
    }
}

/// A cache of three segments: hot (`left`), warm (`middle`) and cold
/// (`right`). An access moves its sector to the front of the hot segment;
/// what a segment cannot hold moves on to the next, and what the cold segment
/// cannot hold leaves the cache, coldest buffer first.
pub struct LfuCache {
    segments: Segments,
}

impl View for LfuCache {
    type V = CacheState;

    closed spec fn view(&self) -> CacheState {
        self.segments@
    }
}

impl LfuCache {
    /// The invariant of the cache: no segment is over its capacity, and every
    /// resident sector is in exactly one segment.
    #[verifier::type_invariant]
    pub open spec fn wf(self) -> bool {
        self@.wf()
    }

    /// An empty cache of `total_buffers` buffers, of which the hot segment
    /// takes `left_max` and the warm segment `middle_max`. Fails where the two
    /// together exceed the total.
    pub fn new(total_buffers: usize, left_max: usize, middle_max: usize) -> (made: Result<
        LfuCache,
        ConfigError,
    >)
        ensures
            match made {
                Ok(cache) => {
                    &&& left_max + middle_max <= total_buffers
                    &&& cache@ == CacheState::empty(
                        total_buffers as nat,
                        left_max as nat,
                        middle_max as nat,
                    )
                    &&& cache@.wf()
                },
                Err(error) => left_max + middle_max > total_buffers && error
                    == ConfigError::SegmentsExceedTotal,
            },
    {
        if left_max > total_buffers || middle_max > total_buffers - left_max {
            Err(ConfigError::SegmentsExceedTotal)
        } else {
            Ok(LfuCache { segments: Segments::new(total_buffers, left_max, middle_max) })
        }
    }

    /// Registers one access to `sector`.
    ///
    /// The access count of a buffer is a `u32`: a sector that has been counted
    /// `u32::MAX` times cannot be accessed again.
    pub fn access(&mut self, sector: u32)
        requires
            old(self)@.counter_of(sector) < u32::MAX,
        ensures
            final(self)@ == old(self)@.accessed(sector),
            final(self)@.wf(),
    {
        proof {
            use_type_invariant(&*self);
            lemma_accessed_keeps_wf(self@, sector);
        }
        let mut work = Segments::new(0, 0, 0);
        std::mem::swap(&mut work, &mut self.segments);
        work.access(sector);
        self.segments = work;
    }

    /// Whether `sector` is resident in any of the three segments.
    pub fn contains(&self, sector: u32) -> (resident: bool)
        ensures
            resident == self@.contains(sector),
    {
        proof {
            lemma_holds_iff_slot(self.segments.left@, sector);
            lemma_holds_iff_slot(self.segments.middle@, sector);
            lemma_holds_iff_slot(self.segments.right@, sector);
        }
        find_sector(&self.segments.left, sector).is_some() || find_sector(
            &self.segments.middle,
            sector,
        ).is_some() || find_sector(&self.segments.right, sector).is_some()
    }

    /// The hot segment, its most recent arrival first.
    pub fn left(&self) -> (segment: &VecDeque<Buffer>)
        ensures
            segment@ == self@.left,
    {
        &self.segments.left
    }

    /// The warm segment, its most recent arrival first.
    pub fn middle(&self) -> (segment: &VecDeque<Buffer>)
        ensures
            segment@ == self@.middle,
    {
        &self.segments.middle
    }

    /// The cold segment, its most recent arrival first.
    pub fn right(&self) -> (segment: &VecDeque<Buffer>)
        ensures
            segment@ == self@.right,
    {
        &self.segments.right
    }

    /// The capacity of the hot segment.
    pub fn left_max(&self) -> (capacity: usize)
        ensures
            capacity == self@.left_max,
    {
        self.segments.left_max
    }

    /// The capacity of the warm segment.
    pub fn middle_max(&self) -> (capacity: usize)
        ensures
            capacity == self@.middle_max,
    {
        self.segments.middle_max
    }

    /// The capacity of the whole cache.
    pub fn total_buffers(&self) -> (capacity: usize)
        ensures
            capacity == self@.total_buffers,
    {
        self.segments.total_buffers
    }
}

} // verus!
