//! The mathematical state of the cache and what an access does to it.

use vstd::prelude::*;

verus! {

/// One cache entry: a resident sector and how often it has been accessed.
#[derive(Debug, Clone, Copy, PartialEq, Eq, Structural)]
pub struct Buffer {
    pub sector: u32,
    pub counter: u32,
}

/// Whether some buffer of `segment` holds `sector`.
pub open spec fn holds(segment: Seq<Buffer>, sector: u32) -> bool {
    exists|i: int| 0 <= i < segment.len() && #[trigger] segment[i].sector == sector
}

/// The first index from `from` on whose buffer holds `sector`, or the length
/// of `segment` where there is none.
pub open spec fn slot_of(segment: Seq<Buffer>, sector: u32, from: int) -> int
    decreases segment.len() - from,
{
    if from < 0 || from >= segment.len() {
        segment.len() as int
    } else if segment[from].sector == sector {
        from
    } else {
        slot_of(segment, sector, from + 1)
    }
}

/// No sector occurs twice in `segment`.
pub open spec fn distinct(segment: Seq<Buffer>) -> bool {
    forall|i: int, j: int|
        0 <= i < j < segment.len() ==> (#[trigger] segment[i]).sector != (
        #[trigger] segment[j]).sector
}

/// No sector occurs in both `first` and `second`.
pub open spec fn disjoint(first: Seq<Buffer>, second: Seq<Buffer>) -> bool {
    forall|i: int, j: int|
        0 <= i < first.len() && 0 <= j < second.len() ==> (#[trigger] first[i]).sector != (
        #[trigger] second[j]).sector
}

/// Whether `a` is a better victim than `b`: accessed less often, or as often
/// and on a lower sector.
pub open spec fn colder(a: Buffer, b: Buffer) -> bool {
    a.counter < b.counter || (a.counter == b.counter && a.sector < b.sector)
}

/// The index of the coldest buffer among `segment[0..=upto]`, the first of
/// them where several are equally cold.
pub open spec fn coldest(segment: Seq<Buffer>, upto: int) -> int
    decreases upto,
{
    if upto <= 0 {
        0
    } else {
        let before = coldest(segment, upto - 1);
        if colder(segment[upto], segment[before]) {
            upto
        } else {
            before
        }
    }
}

/// The buffer after one more access.
pub open spec fn touched(buffer: Buffer) -> Buffer {
    Buffer { sector: buffer.sector, counter: (buffer.counter + 1) as u32 }
}

/// The three segments of the cache, each with its most recent arrival at the
/// front, and the capacities they were configured with.
pub struct CacheState {
    /// The hot segment.
    pub left: Seq<Buffer>,
    /// The warm segment.
    pub middle: Seq<Buffer>,
    /// The cold segment, the only one buffers are evicted from.
    pub right: Seq<Buffer>,
    pub left_max: nat,
    pub middle_max: nat,
    pub total_buffers: nat,
}

impl CacheState {
    /// A cache of the given capacities that holds nothing.
    pub open spec fn empty(total_buffers: nat, left_max: nat, middle_max: nat) -> CacheState {
        CacheState {
            left: Seq::empty(),
            middle: Seq::empty(),
            right: Seq::empty(),
            left_max,
            middle_max,
            total_buffers,
        }
    }

    /// The capacity of the cold segment: what the other two leave of the total.
    pub open spec fn right_max(self) -> int {
        self.total_buffers - self.left_max - self.middle_max
    }

    /// Every resident buffer, hot ones first.
    pub open spec fn residents(self) -> Seq<Buffer> {
        self.left + self.middle + self.right
    }

    /// Whether `sector` is resident in any segment.
    pub open spec fn contains(self, sector: u32) -> bool {
        holds(self.left, sector) || holds(self.middle, sector) || holds(self.right, sector)
    }

    /// The access count of `sector`, zero where it is not resident.
    pub open spec fn counter_of(self, sector: u32) -> nat {
        let l = slot_of(self.left, sector, 0);
        let m = slot_of(self.middle, sector, 0);
        let r = slot_of(self.right, sector, 0);
        if l < self.left.len() {
            self.left[l].counter as nat
        } else if m < self.middle.len() {
            self.middle[m].counter as nat
        } else if r < self.right.len() {
            self.right[r].counter as nat
        } else {
            0
        }
    }

    /// The capacities leave room for a cold segment.
    pub open spec fn configured(self) -> bool {
        self.left_max + self.middle_max <= self.total_buffers
    }

    /// No sector is resident twice, within a segment or across segments.
    pub open spec fn separate(self) -> bool {
        &&& distinct(self.left)
        &&& distinct(self.middle)
        &&& distinct(self.right)
        &&& disjoint(self.left, self.middle)
        &&& disjoint(self.left, self.right)
        &&& disjoint(self.middle, self.right)
    }

    /// The invariant of the cache: the capacities are consistent, no segment
    /// is over its capacity, and every resident sector is in exactly one place.
    pub open spec fn wf(self) -> bool {
        &&& self.configured()
        &&& self.left.len() <= self.left_max
        &&& self.middle.len() <= self.middle_max
        &&& self.right.len() <= self.right_max()
        &&& self.separate()
    }

    /// `buffer` enters the cold segment at the front. Where that takes the
    /// segment over its capacity, its coldest buffer leaves the cache.
    pub open spec fn moved_to_right(self, buffer: Buffer) -> CacheState {
        let right = seq![buffer] + self.right;
        if right.len() > self.right_max() {
            CacheState { right: right.remove(coldest(right, right.len() - 1)), ..self }
        } else {
            CacheState { right, ..self }
        }
    }

    /// `buffer` enters the warm segment at the front. Where that takes the
    /// segment over its capacity, its back buffer moves on to the cold segment.
    pub open spec fn moved_to_middle(self, buffer: Buffer) -> CacheState {
        let middle = seq![buffer] + self.middle;
        if middle.len() > self.middle_max {
            CacheState { middle: middle.drop_last(), ..self }.moved_to_right(middle.last())
        } else {
            CacheState { middle, ..self }
        }
    }

    /// `buffer` enters the hot segment at the front. Where that takes the
    /// segment over its capacity, its back buffer moves on to the warm segment.
    pub open spec fn moved_to_left(self, buffer: Buffer) -> CacheState {
        let left = seq![buffer] + self.left;
        if left.len() > self.left_max {
            CacheState { left: left.drop_last(), ..self }.moved_to_middle(left.last())
        } else {
            CacheState { left, ..self }
        }
    }

    /// The cache after one access to `sector`.
    ///
    /// A sector of the hot segment is counted where it stands. A sector of the
    /// warm or the cold segment is taken out, counted and moved to the front
    /// of the hot segment. A sector that is not resident enters the hot
    /// segment at the front with a count of one.
    pub open spec fn accessed(self, sector: u32) -> CacheState {
        let l = slot_of(self.left, sector, 0);
        let m = slot_of(self.middle, sector, 0);
        let r = slot_of(self.right, sector, 0);
        if l < self.left.len() {
            CacheState { left: self.left.update(l, touched(self.left[l])), ..self }
        } else if m < self.middle.len() {
            CacheState { middle: self.middle.remove(m), ..self }.moved_to_left(
                touched(self.middle[m]),
            )
        } else if r < self.right.len() {
            CacheState { right: self.right.remove(r), ..self }.moved_to_left(
                touched(self.right[r]),
            )
        } else {
            self.moved_to_left(Buffer { sector, counter: 1 })
        }
    }

    /// The cache after an access to each sector of `sectors`, front first.
    pub open spec fn accessed_all(self, sectors: Seq<u32>) -> CacheState
        decreases sectors.len(),
    {
        if sectors.len() == 0 {
            self
        } else {
            self.accessed(sectors.first()).accessed_all(sectors.drop_first())
        }
    }
}

/// What `slot_of` finds: the first buffer that holds the sector.
pub proof fn lemma_slot_of(segment: Seq<Buffer>, sector: u32, from: int)
    requires
        0 <= from <= segment.len(),
    ensures
        from <= slot_of(segment, sector, from) <= segment.len(),
        forall|j: int|
            from <= j < slot_of(segment, sector, from) ==> (#[trigger] segment[j]).sector != sector,
        slot_of(segment, sector, from) < segment.len() ==> segment[slot_of(
            segment,
            sector,
            from,
        )].sector == sector,
    decreases segment.len() - from,
{
    if from < segment.len() && segment[from].sector != sector {
        lemma_slot_of(segment, sector, from + 1);
    }
}

/// A segment holds a sector exactly when `slot_of` finds it.
pub proof fn lemma_holds_iff_slot(segment: Seq<Buffer>, sector: u32)
    ensures
        holds(segment, sector) <==> slot_of(segment, sector, 0) < segment.len(),
{
    lemma_slot_of(segment, sector, 0);
}

/// A sector that is not resident has no access count.
pub proof fn lemma_absent_is_uncounted(state: CacheState, sector: u32)
    requires
        !state.contains(sector),
    ensures
        state.counter_of(sector) == 0,
{
    lemma_holds_iff_slot(state.left, sector);
    lemma_holds_iff_slot(state.middle, sector);
    lemma_holds_iff_slot(state.right, sector);
}

/// What `coldest` finds: a buffer than which none is colder, and the first
/// such buffer.
pub proof fn lemma_coldest(segment: Seq<Buffer>, upto: int)
    requires
        0 <= upto < segment.len(),
    ensures
        0 <= coldest(segment, upto) <= upto,
        forall|j: int|
            0 <= j <= upto ==> !colder(#[trigger] segment[j], segment[coldest(segment, upto)]),
        forall|j: int|
            0 <= j < coldest(segment, upto) ==> colder(
                segment[coldest(segment, upto)],
                #[trigger] segment[j],
            ),
    decreases upto,
{
    if upto > 0 {
        lemma_coldest(segment, upto - 1);
    }
}

} // verus!
