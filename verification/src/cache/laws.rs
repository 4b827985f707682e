//! What holds of the cache after any sequence of accesses.

use vstd::prelude::*;
use crate::cache::model::{
    Buffer, CacheState, holds, slot_of, distinct, colder, coldest, touched, lemma_slot_of,
    lemma_coldest,
};

verus! {

/// Moving a buffer whose sector is not resident into the cold segment keeps
/// every sector in one place and the cold segment within its capacity, and
/// leaves the other segments alone.
pub proof fn lemma_moved_to_right(state: CacheState, buffer: Buffer)
    requires
        state.configured(),
        state.separate(),
        !state.contains(buffer.sector),
        state.right.len() <= state.right_max(),
    ensures
        state.moved_to_right(buffer).separate(),
        state.moved_to_right(buffer).right.len() <= state.right_max(),
        state.moved_to_right(buffer).left == state.left,
        state.moved_to_right(buffer).middle == state.middle,
        state.moved_to_right(buffer).left_max == state.left_max,
        state.moved_to_right(buffer).middle_max == state.middle_max,
        state.moved_to_right(buffer).total_buffers == state.total_buffers,
{
    let right = seq![buffer] + state.right;
    if right.len() > state.right_max() {
        lemma_coldest(right, right.len() - 1);
    }
}

/// Moving a buffer whose sector is not resident into the warm segment keeps
/// every sector in one place and the warm and cold segments within their
/// capacities, and leaves the hot segment alone.
pub proof fn lemma_moved_to_middle(state: CacheState, buffer: Buffer)
    requires
        state.configured(),
        state.separate(),
        !state.contains(buffer.sector),
        state.middle.len() <= state.middle_max,
        state.right.len() <= state.right_max(),
    ensures
        state.moved_to_middle(buffer).separate(),
        state.moved_to_middle(buffer).middle.len() <= state.middle_max,
        state.moved_to_middle(buffer).right.len() <= state.right_max(),
        state.moved_to_middle(buffer).left == state.left,
        state.moved_to_middle(buffer).left_max == state.left_max,
        state.moved_to_middle(buffer).middle_max == state.middle_max,
        state.moved_to_middle(buffer).total_buffers == state.total_buffers,
{
    let middle = seq![buffer] + state.middle;
    if middle.len() > state.middle_max {
        let kept = CacheState { middle: middle.drop_last(), ..state };
        lemma_moved_to_right(kept, middle.last());
    }
}

/// Moving a buffer whose sector is not resident into the hot segment keeps
/// the invariant of the cache.
pub proof fn lemma_moved_to_left(state: CacheState, buffer: Buffer)
    requires
        state.wf(),
        !state.contains(buffer.sector),
    ensures
        state.moved_to_left(buffer).wf(),
        state.moved_to_left(buffer).left_max == state.left_max,
        state.moved_to_left(buffer).middle_max == state.middle_max,
        state.moved_to_left(buffer).total_buffers == state.total_buffers,
{
    let left = seq![buffer] + state.left;
    if left.len() > state.left_max {
        let kept = CacheState { left: left.drop_last(), ..state };
        lemma_moved_to_middle(kept, left.last());
    }
}

/// An access keeps the invariant of the cache: afterwards no segment is over
/// its capacity and every resident sector is in exactly one segment.
pub proof fn lemma_accessed_keeps_wf(state: CacheState, sector: u32)
    requires
        state.wf(),
    ensures
        state.accessed(sector).wf(),
        state.accessed(sector).left_max == state.left_max,
        state.accessed(sector).middle_max == state.middle_max,
        state.accessed(sector).total_buffers == state.total_buffers,
{
    lemma_slot_of(state.left, sector, 0);
    lemma_slot_of(state.middle, sector, 0);
    lemma_slot_of(state.right, sector, 0);
    let l = slot_of(state.left, sector, 0);
    let m = slot_of(state.middle, sector, 0);
    let r = slot_of(state.right, sector, 0);
    if l < state.left.len() {
    } else if m < state.middle.len() {
        let kept = CacheState { middle: state.middle.remove(m), ..state };
        lemma_moved_to_left(kept, touched(state.middle[m]));
    } else if r < state.right.len() {
        let kept = CacheState { right: state.right.remove(r), ..state };
        lemma_moved_to_left(kept, touched(state.right[r]));
    } else {
        lemma_moved_to_left(state, Buffer { sector, counter: 1 });
    }
}

/// Any sequence of accesses keeps the invariant of the cache, and never
/// changes its capacities.
pub proof fn lemma_accessed_all_keeps_wf(state: CacheState, sectors: Seq<u32>)
    requires
        state.wf(),
    ensures
        state.accessed_all(sectors).wf(),
        state.accessed_all(sectors).left_max == state.left_max,
        state.accessed_all(sectors).middle_max == state.middle_max,
        state.accessed_all(sectors).total_buffers == state.total_buffers,
    decreases sectors.len(),
{
    if sectors.len() > 0 {
        lemma_accessed_keeps_wf(state, sectors.first());
        lemma_accessed_all_keeps_wf(state.accessed(sectors.first()), sectors.drop_first());
    }
}

/// A cache that keeps its invariant holds no more buffers than its total, no
/// sector twice, and each resident sector in exactly one segment.
pub proof fn lemma_wf_bounds_residents(state: CacheState)
    requires
        state.wf(),
    ensures
        state.residents().len() <= state.total_buffers,
        distinct(state.residents()),
        forall|sector: u32|
            !(holds(state.left, sector) && holds(state.middle, sector)) && !(holds(
                state.left,
                sector,
            ) && holds(state.right, sector)) && !(holds(state.middle, sector) && holds(
                state.right,
                sector,
            )),
{
}

/// Whatever is accessed, and in whatever order, a cache that started empty
/// holds at most `total_buffers` sectors, each of them once and in exactly
/// one segment.
pub proof fn lemma_cache_never_overfills(
    total_buffers: nat,
    left_max: nat,
    middle_max: nat,
    sectors: Seq<u32>,
)
    requires
        left_max + middle_max <= total_buffers,
    ensures
        ({
            let state = CacheState::empty(total_buffers, left_max, middle_max).accessed_all(
                sectors,
            );
            &&& state.wf()
            &&& state.residents().len() <= total_buffers
            &&& distinct(state.residents())
            &&& forall|sector: u32|
                !(holds(state.left, sector) && holds(state.middle, sector)) && !(holds(
                    state.left,
                    sector,
                ) && holds(state.right, sector)) && !(holds(state.middle, sector) && holds(
                    state.right,
                    sector,
                ))
        }),
{
    let fresh = CacheState::empty(total_buffers, left_max, middle_max);
    lemma_accessed_all_keeps_wf(fresh, sectors);
    lemma_wf_bounds_residents(fresh.accessed_all(sectors));
}

/// When the cold segment overflows, the buffer that leaves is colder than
/// every other buffer that stood in the segment at that moment, the arrival
/// included: it has the least access count, and the lowest sector among the
/// buffers with that count.
pub proof fn lemma_eviction_takes_coldest(state: CacheState, buffer: Buffer)
    requires
        state.configured(),
        state.separate(),
        !state.contains(buffer.sector),
        state.right.len() + 1 > state.right_max(),
    ensures
        ({
            let full = seq![buffer] + state.right;
            let out = coldest(full, full.len() - 1);
            &&& 0 <= out < full.len()
            &&& state.moved_to_right(buffer).right == full.remove(out)
            &&& forall|j: int|
                0 <= j < full.len() && j != out ==> colder(full[out], #[trigger] full[j])
        }),
{
    let full = seq![buffer] + state.right;
    lemma_coldest(full, full.len() - 1);
    let out = coldest(full, full.len() - 1);
    assert forall|j: int| 0 <= j < full.len() && j != out implies colder(
        full[out],
        #[trigger] full[j],
    ) by {
        assert(!colder(full[j], full[out]));
        if j > 0 && out > 0 {
            assert(state.right[j - 1].sector != state.right[out - 1].sector);
        } else if j > 0 {
            assert(state.right[j - 1].sector != buffer.sector);
        } else {
            assert(state.right[out - 1].sector != buffer.sector);
        }
    }
}

} // verus!
