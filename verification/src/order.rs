//! Putting samples in time order, keeping the arrival order of samples at the same instant.
use vstd::prelude::*;

use crate::time::{not_after, Timestamp};

verus! {

/// Sample `a` (at time `ta`) comes before sample `b` (at time `tb`): an earlier instant, or
/// the same instant and an earlier arrival.
pub open spec fn arrives_before(ta: Timestamp, a: int, tb: Timestamp, b: int) -> bool {
    ta.secs < tb.secs || (ta.secs == tb.secs && (ta.nanos < tb.nanos || (ta.nanos == tb.nanos
        && a < b)))
}

/// `order` lists sample indices below `n`, each sample before the next.
pub open spec fn is_time_order(times: Seq<Timestamp>, order: Seq<usize>) -> bool {
    &&& forall|a: int| 0 <= a < order.len() ==> (#[trigger] order[a]) < times.len()
    &&& forall|a: int, b: int|
        0 <= a < b < order.len() ==> arrives_before(
            times[order[a] as int],
            order[a] as int,
            times[order[b] as int],
            order[b] as int,
        )
}

/// `x` is a later time than `t` (instants compared as `chrono` compares them).
pub open spec fn later(x: Timestamp, t: Timestamp) -> bool {
    x.secs > t.secs || (x.secs == t.secs && x.nanos > t.nanos)
}

proof fn lemma_order_pair(times: Seq<Timestamp>, order: Seq<usize>, a: int, b: int)
    requires
        is_time_order(times, order),
        0 <= a < b < order.len(),
    ensures
        not_after(times[order[a] as int], times[order[b] as int]),
{
    assert(arrives_before(times[order[a] as int], order[a] as int, times[order[b] as int], order[b] as int));
}

/// Index of the first entry of `order` whose time is later than `t`.
fn upper_bound(times: &[Timestamp], order: &Vec<usize>, t: Timestamp) -> (r: usize)
    requires
        is_time_order(times@, order@),
    ensures
        r <= order@.len(),
        forall|a: int| 0 <= a < r ==> !later(#[trigger] times@[order@[a] as int], t),
        forall|a: int| r <= a < order@.len() ==> later(#[trigger] times@[order@[a] as int], t),
{
    let mut lo: usize = 0;
    let mut hi: usize = order.len();
    while lo < hi
        invariant
            lo <= hi <= order@.len(),
            is_time_order(times@, order@),
            forall|a: int| 0 <= a < lo ==> !later(#[trigger] times@[order@[a] as int], t),
            forall|a: int| hi <= a < order@.len() ==> later(#[trigger] times@[order@[a] as int], t),
        decreases hi - lo,
    {
        let mid = lo + (hi - lo) / 2;
        let m = &times[order[mid]];
        if m.secs > t.secs || (m.secs == t.secs && m.nanos > t.nanos) {
            proof {
                assert forall|a: int| mid <= a < order@.len() implies later(#[trigger] times@[order@[a] as int], t) by {
                    if a > mid {
                        lemma_order_pair(times@, order@, mid as int, a);
                    }
                }
            }
            hi = mid;
        } else {
            proof {
                assert forall|a: int| 0 <= a < mid + 1 implies !later(#[trigger] times@[order@[a] as int], t) by {
                    if a < mid {
                        lemma_order_pair(times@, order@, a, mid as int);
                    }
                }
            }
            lo = mid + 1;
        }
    }
    lo
}

/// The order in which to read the samples so that their times never go back; samples at the
/// same instant keep their order. Every index appears once.
pub fn time_order(times: &[Timestamp]) -> (r: Vec<usize>)
    ensures
        r@.len() == times@.len(),
        is_time_order(times@, r@),
{
    let mut order: Vec<usize> = Vec::new();
    let mut i: usize = 0;
    while i < times.len()
        invariant
            i <= times@.len(),
            order@.len() == i,
            is_time_order(times@, order@),
            forall|a: int| 0 <= a < order@.len() ==> (#[trigger] order@[a]) < i,
        decreases times@.len() - i,
    {
        let t = times[i];
        let pos = upper_bound(times, &order, t);
        let ghost old_order = order@;
        order.insert(pos, i);
        proof {
            assert(order@ == old_order.insert(pos as int, i));
            assert forall|a: int, b: int| 0 <= a < b < order@.len() implies arrives_before(
                times@[order@[a] as int],
                order@[a] as int,
                times@[order@[b] as int],
                order@[b] as int,
            ) by {
                if a < pos && b == pos {
                    assert(order@[a] == old_order[a]);
                    assert(!later(times@[old_order[a] as int], t));
                } else if a == pos && b > pos {
                    assert(order@[b] == old_order[b - 1]);
                    assert(later(times@[old_order[b - 1] as int], t));
                } else if a < pos && b > pos {
                    assert(order@[a] == old_order[a]);
                    assert(order@[b] == old_order[b - 1]);
                    assert(!later(times@[old_order[a] as int], t));
                    assert(later(times@[old_order[b - 1] as int], t));
                } else if b < pos {
                    assert(order@[a] == old_order[a]);
                    assert(order@[b] == old_order[b]);
                } else {
                    assert(order@[a] == old_order[a - 1]);
                    assert(order@[b] == old_order[b - 1]);
                }
            }
        }
        i = i + 1;
    }
    order
}

/// A time order lists each sample once: no index appears twice.
pub proof fn lemma_time_order_distinct(times: Seq<Timestamp>, order: Seq<usize>)
    requires
        is_time_order(times, order),
    ensures
        forall|a: int, b: int| 0 <= a < b < order.len() ==> order[a] != order[b],
{
    assert forall|a: int, b: int| 0 <= a < b < order.len() implies order[a] != order[b] by {
        assert(arrives_before(
            times[order[a] as int],
            order[a] as int,
            times[order[b] as int],
            order[b] as int,
        ));
    }
}

/// Read in a time order, the samples' times never go back.
pub proof fn lemma_time_order_sorted(times: Seq<Timestamp>, order: Seq<usize>)
    requires
        is_time_order(times, order),
    ensures
        forall|a: int, b: int|
            0 <= a < b < order.len() ==> not_after(#[trigger] times[order[a] as int], #[trigger] times[order[b] as int]),
{
    assert forall|a: int, b: int| 0 <= a < b < order.len() implies not_after(#[trigger] times[order[a] as int], #[trigger] times[order[b] as int]) by {
        lemma_order_pair(times, order, a, b);
    }
}

} // verus!
