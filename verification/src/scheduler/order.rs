//! Sequences of requests kept in ascending sector order, and the directional
//! scan that LOOK and FLOOK share.

use vstd::prelude::*;
use crate::scheduler::Request;

verus! {

/// Sectors never decrease from the front of `queue` to its back.
pub open spec fn ascending(queue: Seq<Request>) -> bool {
    forall|i: int, j: int| 0 <= i <= j < queue.len() ==> queue[i].sector <= queue[j].sector
}

/// `queue` with `request` put behind the last entry whose sector does not
/// exceed its own. On an ascending queue this keeps the order, and a request
/// follows the earlier ones for the same sector.
pub open spec fn placed(queue: Seq<Request>, request: Request) -> Seq<Request>
    decreases queue.len(),
{
    if queue.len() == 0 {
        seq![request]
    } else if queue.last().sector <= request.sector {
        queue.push(request)
    } else {
        placed(queue.drop_last(), request).push(queue.last())
    }
}

/// The stable sort of `queue` by sector: its requests in ascending sector
/// order, those for one sector in the order in which they stood.
pub open spec fn sorted_by_sector(queue: Seq<Request>) -> Seq<Request>
    decreases queue.len(),
{
    if queue.len() == 0 {
        queue
    } else {
        placed(sorted_by_sector(queue.drop_last()), queue.last())
    }
}

/// The first index from `from` on whose request lies at or beyond
/// `position`, or the length of `queue` where there is none.
pub open spec fn first_at_or_above(queue: Seq<Request>, position: u32, from: int) -> int
    decreases queue.len() - from,
{
    if from < 0 || from >= queue.len() {
        queue.len() as int
    } else if queue[from].sector >= position {
        from
    } else {
        first_at_or_above(queue, position, from + 1)
    }
}

/// The last index up to `upto` whose request lies at or before `position`,
/// or -1 where there is none.
pub open spec fn last_at_or_below(queue: Seq<Request>, position: u32, upto: int) -> int
    decreases upto + 1,
{
    if upto < 0 || upto >= queue.len() {
        -1
    } else if queue[upto].sector <= position {
        upto
    } else {
        last_at_or_below(queue, position, upto - 1)
    }
}

/// One directional scan over `queue` with the head at `position`.
///
/// Moving outward it hands out the first request at or beyond the head; moving
/// inward, the last request at or before it. Where the direction holds no such
/// request the scan hands out nothing and the direction flips. The result is
/// the queue that remains, the direction after the scan (`true` is outward)
/// and the request handed out.
pub open spec fn scan(queue: Seq<Request>, outward: bool, position: u32) -> (
    Seq<Request>,
    bool,
    Option<Request>,
) {
    if outward {
        let at = first_at_or_above(queue, position, 0);
        if at < queue.len() {
            (queue.remove(at), true, Some(queue[at]))
        } else {
            (queue, false, None)
        }
    } else {
        let at = last_at_or_below(queue, position, queue.len() - 1);
        if at >= 0 {
            (queue.remove(at), false, Some(queue[at]))
        } else {
            (queue, true, None)
        }
    }
}

/// What `first_at_or_above` finds: nothing before it reaches the head, and
/// the request at it does.
pub proof fn lemma_first_at_or_above(queue: Seq<Request>, position: u32, from: int)
    requires
        0 <= from <= queue.len(),
    ensures
        from <= first_at_or_above(queue, position, from) <= queue.len(),
        forall|j: int|
            from <= j < first_at_or_above(queue, position, from) ==> queue[j].sector < position,
        first_at_or_above(queue, position, from) < queue.len() ==> queue[first_at_or_above(
            queue,
            position,
            from,
        )].sector >= position,
    decreases queue.len() - from,
{
    if from < queue.len() && queue[from].sector < position {
        lemma_first_at_or_above(queue, position, from + 1);
    }
}

/// What `last_at_or_below` finds: nothing behind it lies at or before the
/// head, and the request at it does.
pub proof fn lemma_last_at_or_below(queue: Seq<Request>, position: u32, upto: int)
    requires
        -1 <= upto < queue.len(),
    ensures
        -1 <= last_at_or_below(queue, position, upto) <= upto,
        forall|j: int|
            last_at_or_below(queue, position, upto) < j <= upto ==> queue[j].sector > position,
        last_at_or_below(queue, position, upto) >= 0 ==> queue[last_at_or_below(
            queue,
            position,
            upto,
        )].sector <= position,
    decreases upto + 1,
{
    if upto >= 0 && queue[upto].sector > position {
        lemma_last_at_or_below(queue, position, upto - 1);
    }
}

/// `placed` is one insertion: behind every entry that does not exceed the
/// request's sector, before every entry that does.
pub proof fn lemma_placed_is_insertion(queue: Seq<Request>, request: Request, at: int)
    requires
        0 <= at <= queue.len(),
        forall|j: int| at <= j < queue.len() ==> queue[j].sector > request.sector,
        at > 0 ==> queue[at - 1].sector <= request.sector,
    ensures
        placed(queue, request) == queue.insert(at, request),
    decreases queue.len(),
{
    if queue.len() == 0 {
        assert(queue.insert(at, request) =~= seq![request]);
    } else if queue.last().sector <= request.sector {
        assert(at == queue.len());
        assert(queue.insert(at, request) =~= queue.push(request));
    } else {
        assert(at < queue.len());
        let front = queue.drop_last();
        lemma_placed_is_insertion(front, request, at);
        assert(front.insert(at, request).push(queue.last()) =~= queue.insert(at, request));
    }
}

/// Where `placed` puts the request: the index behind the last entry that does
/// not exceed its sector.
pub open spec fn place_of(queue: Seq<Request>, request: Request) -> int {
    last_at_or_below(queue, request.sector, queue.len() - 1) + 1
}

/// `placed` inserts at `place_of`.
pub proof fn lemma_placed_at_place_of(queue: Seq<Request>, request: Request)
    ensures
        0 <= place_of(queue, request) <= queue.len(),
        placed(queue, request) == queue.insert(place_of(queue, request), request),
{
    lemma_last_at_or_below(queue, request.sector, queue.len() - 1);
    lemma_placed_is_insertion(queue, request, place_of(queue, request));
}

/// Placing a request into an ascending queue leaves it ascending.
pub proof fn lemma_placed_keeps_ascending(queue: Seq<Request>, request: Request)
    requires
        ascending(queue),
    ensures
        ascending(placed(queue, request)),
{
    lemma_placed_at_place_of(queue, request);
    lemma_last_at_or_below(queue, request.sector, queue.len() - 1);
    let at = place_of(queue, request);
    let after = queue.insert(at, request);
    assert forall|i: int, j: int| 0 <= i <= j < after.len() implies after[i].sector
        <= after[j].sector by {
        if i < at && j == at {
            assert(queue[i].sector <= queue[at - 1].sector);
        }
    }
}

/// Placing a request adds exactly that request.
pub proof fn lemma_placed_adds_one(queue: Seq<Request>, request: Request)
    ensures
        placed(queue, request).len() == queue.len() + 1,
        placed(queue, request).to_multiset() == queue.to_multiset().insert(request),
{
    lemma_placed_at_place_of(queue, request);
    vstd::seq_lib::to_multiset_insert(queue, place_of(queue, request), request);
}

/// The stable sort is ascending and holds exactly the requests it was given.
pub proof fn lemma_sorted_by_sector(queue: Seq<Request>)
    ensures
        ascending(sorted_by_sector(queue)),
        sorted_by_sector(queue).len() == queue.len(),
        sorted_by_sector(queue).to_multiset() == queue.to_multiset(),
    decreases queue.len(),
{
    if queue.len() > 0 {
        let front = queue.drop_last();
        lemma_sorted_by_sector(front);
        lemma_placed_keeps_ascending(sorted_by_sector(front), queue.last());
        lemma_placed_adds_one(sorted_by_sector(front), queue.last());
        assert(front.push(queue.last()) =~= queue);
        vstd::seq_lib::to_multiset_insert(front, front.len() as int, queue.last());
        assert(front.insert(front.len() as int, queue.last()) =~= queue);
    }
}

/// The test that picks the requests for `sector`.
pub open spec fn for_sector(sector: u32) -> spec_fn(Request) -> bool {
    |request: Request| request.sector == sector
}

/// Placing a request leaves the requests for every sector in the order in
/// which they stood, the newcomer behind those for its own sector.
pub proof fn lemma_placed_is_stable(queue: Seq<Request>, request: Request, sector: u32)
    ensures
        placed(queue, request).filter(for_sector(sector)) == if request.sector == sector {
            queue.filter(for_sector(sector)).push(request)
        } else {
            queue.filter(for_sector(sector))
        },
    decreases queue.len(),
{
    let wanted = for_sector(sector);
    if queue.len() == 0 {
        assert(seq![request] =~= queue.push(request));
        queue.lemma_filter_push(request, wanted);
    } else if queue.last().sector <= request.sector {
        queue.lemma_filter_push(request, wanted);
    } else {
        let front = queue.drop_last();
        lemma_placed_is_stable(front, request, sector);
        placed(front, request).lemma_filter_push(queue.last(), wanted);
        assert(front.push(queue.last()) =~= queue);
        front.lemma_filter_push(queue.last(), wanted);
    }
}

/// The sort is stable: the requests for one sector come out in the order in
/// which they went in.
pub proof fn lemma_sorted_by_sector_is_stable(queue: Seq<Request>, sector: u32)
    ensures
        sorted_by_sector(queue).filter(for_sector(sector)) == queue.filter(for_sector(sector)),
    decreases queue.len(),
{
    if queue.len() > 0 {
        let front = queue.drop_last();
        lemma_sorted_by_sector_is_stable(front, sector);
        lemma_placed_is_stable(sorted_by_sector(front), queue.last(), sector);
        assert(front.push(queue.last()) =~= queue);
        front.lemma_filter_push(queue.last(), for_sector(sector));
    }
}

/// Placing a request into an ascending queue gives what appending it and then
/// sorting the queue gives.
pub proof fn lemma_placed_is_push_then_sort(queue: Seq<Request>, request: Request)
    requires
        ascending(queue),
    ensures
        placed(queue, request) == sorted_by_sector(queue.push(request)),
{
    lemma_ascending_is_sorted(queue);
    assert(queue.push(request).drop_last() =~= queue);
}

/// An ascending queue is its own stable sort.
pub proof fn lemma_ascending_is_sorted(queue: Seq<Request>)
    requires
        ascending(queue),
    ensures
        sorted_by_sector(queue) == queue,
    decreases queue.len(),
{
    if queue.len() > 0 {
        let front = queue.drop_last();
        lemma_ascending_is_sorted(front);
        if front.len() > 0 {
            assert(front.last() == queue[queue.len() - 2]);
        }
        assert(front.push(queue.last()) =~= queue);
    }
}

/// A scan hands out a request that it found in the queue, and removes just
/// that one; a scan that hands out nothing leaves the queue as it was.
pub proof fn lemma_scan_removes_one(queue: Seq<Request>, outward: bool, position: u32)
    ensures
        match scan(queue, outward, position).2 {
            Some(request) => exists|at: int|
                0 <= at < queue.len() && queue[at] == request && scan(queue, outward, position).0
                    == #[trigger] queue.remove(at),
            None => scan(queue, outward, position).0 == queue,
        },
{
    lemma_first_at_or_above(queue, position, 0);
    lemma_last_at_or_below(queue, position, queue.len() - 1);
}

/// A scan that hands out a request keeps its direction, and the request lies
/// on the side of the head towards which the scan moves; a scan that hands
/// out nothing turns round.
pub proof fn lemma_scan_direction(queue: Seq<Request>, outward: bool, position: u32)
    ensures
        match scan(queue, outward, position).2 {
            Some(request) => {
                &&& scan(queue, outward, position).1 == outward
                &&& outward ==> request.sector >= position
                &&& !outward ==> request.sector <= position
            },
            None => scan(queue, outward, position).1 == !outward,
        },
{
    lemma_first_at_or_above(queue, position, 0);
    lemma_last_at_or_below(queue, position, queue.len() - 1);
}

/// On an ascending queue a scan hands out the request nearest to the head in
/// its direction: outward the lowest sector at or beyond the head, inward the
/// highest sector at or before it. It hands out nothing only when no pending
/// request lies in its direction.
pub proof fn lemma_scan_serves_nearest(queue: Seq<Request>, outward: bool, position: u32)
    requires
        ascending(queue),
    ensures
        match scan(queue, outward, position).2 {
            Some(request) => forall|k: int|
                0 <= k < queue.len() ==> if outward {
                    #[trigger] queue[k].sector >= position ==> request.sector <= queue[k].sector
                } else {
                    #[trigger] queue[k].sector <= position ==> request.sector >= queue[k].sector
                },
            None => forall|k: int|
                0 <= k < queue.len() ==> if outward {
                    #[trigger] queue[k].sector < position
                } else {
                    #[trigger] queue[k].sector > position
                },
        },
{
    lemma_first_at_or_above(queue, position, 0);
    lemma_last_at_or_below(queue, position, queue.len() - 1);
}

/// A scan leaves an ascending queue ascending.
pub proof fn lemma_scan_keeps_ascending(queue: Seq<Request>, outward: bool, position: u32)
    requires
        ascending(queue),
    ensures
        ascending(scan(queue, outward, position).0),
{
    lemma_scan_removes_one(queue, outward, position);
}

/// Puts `request` into `queue` behind the last entry whose sector does not
/// exceed its own.
pub(crate) fn insert_by_sector(queue: &mut Vec<Request>, request: Request)
    ensures
        final(queue)@ == placed(old(queue)@, request),
{
    let mut at: usize = queue.len();
    while at > 0 && queue[at - 1].sector > request.sector
        invariant
            at <= queue.len(),
            forall|j: int| at <= j < queue.len() ==> queue[j].sector > request.sector,
        decreases at,
    {
        at -= 1;
    }
    proof {
        lemma_placed_is_insertion(queue@, request, at as int);
    }
    queue.insert(at, request);
}

/// Sorts `queue` by sector, keeping the requests for one sector in the order
/// in which they stood.
pub(crate) fn sort_by_sector(queue: Vec<Request>) -> (sorted: Vec<Request>)
    ensures
        sorted@ == sorted_by_sector(queue@),
{
    let mut sorted: Vec<Request> = Vec::new();
    let mut done: usize = 0;
    while done < queue.len()
        invariant
            done <= queue.len(),
            sorted@ == sorted_by_sector(queue@.take(done as int)),
        decreases queue.len() - done,
    {
        assert(queue@.take(done + 1).drop_last() =~= queue@.take(done as int));
        insert_by_sector(&mut sorted, queue[done]);
        done += 1;
    }
    assert(queue@.take(done as int) =~= queue@);
    sorted
}

/// Runs one directional scan over `queue`: removes and returns the request
/// that the scan hands out, together with the direction after the scan.
pub(crate) fn scan_queue(queue: &mut Vec<Request>, outward: bool, position: u32) -> (found: (
    bool,
    Option<Request>,
))
    ensures
        (final(queue)@, found.0, found.1) == scan(old(queue)@, outward, position),
{
    if outward {
        let mut at: usize = 0;
        while at < queue.len() && queue[at].sector < position
            invariant
                at <= queue.len(),
                first_at_or_above(queue@, position, 0) == first_at_or_above(
                    queue@,
                    position,
                    at as int,
                ),
            decreases queue.len() - at,
        {
            at += 1;
        }
        if at < queue.len() {
            let request = queue.remove(at);
            (true, Some(request))
        } else {
            (false, None)
        }
    } else {
        let mut upto: usize = queue.len();
        while upto > 0 && queue[upto - 1].sector > position
            invariant
                upto <= queue.len(),
                last_at_or_below(queue@, position, queue.len() - 1) == last_at_or_below(
                    queue@,
                    position,
                    upto - 1,
                ),
            decreases upto,
        {
            upto -= 1;
        }
        if upto > 0 {
            let request = queue.remove(upto - 1);
            (false, Some(request))
        } else {
            (true, None)
        }
    }
}

} // verus!
