//! Heat-pump operating states and the segments in which one state holds.
use vstd::prelude::*;

use crate::time::{seconds_between, seconds_between_exec, Timestamp};

verus! {

/// What the heat pump is doing.
#[derive(Debug, Clone, Copy, PartialEq, Eq, Structural)]
pub enum HpState {
    Heating,
    Dhw,
    Off,
}

impl HpState {
    /// The state's lower-case name.
    pub fn to_string(&self) -> (r: String)
        ensures
            r@ == match self {
                HpState::Heating => "heating"@,
                HpState::Dhw => "dhw"@,
                HpState::Off => "off"@,
            },
    {
        match self {
            HpState::Heating => String::from_str("heating"),
            HpState::Dhw => String::from_str("dhw"),
            HpState::Off => String::from_str("off"),
        }
    }
}

pub type SegState = (Timestamp, HpState, Seq<(Timestamp, Timestamp, HpState)>);

/// One sample after the first: a change of state closes the current segment (kept when
/// it lasted at least `min` seconds) and opens one at this sample.
pub open spec fn seg_step(st: SegState, row: (Timestamp, HpState), min: i64) -> SegState {
    if row.1 != st.1 {
        (row.0, row.1, if seconds_between(st.0, row.0) >= min {
            st.2.push((st.0, row.0, st.1))
        } else {
            st.2
        })
    } else {
        st
    }
}

pub open spec fn seg_scan(rows: Seq<(Timestamp, HpState)>, min: i64) -> SegState
    recommends
        rows.len() > 0,
    decreases rows.len(),
{
    if rows.len() <= 1 {
        (rows[0].0, rows[0].1, Seq::empty())
    } else {
        seg_step(seg_scan(rows.drop_last(), min), rows.last(), min)
    }
}

/// Segments of constant state: the last one ends at the last sample.
pub open spec fn state_segments(rows: Seq<(Timestamp, HpState)>, min: i64) -> Seq<(Timestamp, Timestamp, HpState)> {
    if rows.len() == 0 {
        Seq::empty()
    } else {
        let st = seg_scan(rows, min);
        if seconds_between(st.0, rows.last().0) >= min {
            st.2.push((st.0, rows.last().0, st.1))
        } else {
            st.2
        }
    }
}

pub open spec fn samples_wf(rows: Seq<(Timestamp, HpState)>) -> bool {
    forall|i: int| 0 <= i < rows.len() ==> (#[trigger] rows[i]).0.wf()
}

/// Splits a series of classified samples into segments of one state lasting at least
/// `min_period_seconds`.
pub fn segment_states(rows: &[(Timestamp, HpState)], min_period_seconds: i64) -> (r: Vec<(Timestamp, Timestamp, HpState)>)
    requires
        samples_wf(rows@),
    ensures
        r@ == state_segments(rows@, min_period_seconds),
{
    let ghost rs = rows@;
    let mut segments: Vec<(Timestamp, Timestamp, HpState)> = Vec::new();
    if rows.len() == 0 {
        return segments;
    }
    let mut seg_start = rows[0].0;
    let mut seg_state = rows[0].1;
    assert(rs[0].0.wf());
    proof {
        assert(rs.take(1).len() == 1);
        assert(rs.take(1)[0] == rs[0]);
    }
    let mut i: usize = 1;
    while i < rows.len()
        invariant
            1 <= i <= rows.len(),
            rs == rows@,
            samples_wf(rs),
            seg_scan(rs.take(i as int), min_period_seconds) == (seg_start, seg_state, segments@),
            seg_start.wf(),
        decreases rows.len() - i,
    {
        let (t, state) = rows[i];
        proof {
            assert(rs.take(i + 1).drop_last() =~= rs.take(i as int));
            assert(rs.take(i + 1).last() == rs[i as int]);
            assert(rs[i as int].0.wf());
        }
        if state != seg_state {
            if seconds_between_exec(&seg_start, &t) >= min_period_seconds {
                segments.push((seg_start, t, seg_state));
            }
            seg_start = t;
            seg_state = state;
        }
        i = i + 1;
    }
    assert(rs.take(rows.len() as int) =~= rs);
    let last = rows[rows.len() - 1].0;
    assert(rs[rs.len() - 1].0.wf());
    if seconds_between_exec(&seg_start, &last) >= min_period_seconds {
        segments.push((seg_start, last, seg_state));
    }
    segments
}

proof fn lemma_seg_scan_long(rows: Seq<(Timestamp, HpState)>, min: i64)
    requires
        rows.len() > 0,
    ensures
        forall|i: int|
            0 <= i < seg_scan(rows, min).2.len() ==> seconds_between(
                (#[trigger] seg_scan(rows, min).2[i]).0,
                seg_scan(rows, min).2[i].1,
            ) >= min,
    decreases rows.len(),
{
    if rows.len() > 1 {
        lemma_seg_scan_long(rows.drop_last(), min);
        let st = seg_scan(rows.drop_last(), min);
        let cur = seg_scan(rows, min);
        assert forall|i: int| 0 <= i < cur.2.len() implies seconds_between(
            (#[trigger] cur.2[i]).0,
            cur.2[i].1,
        ) >= min by {
            if i < st.2.len() {
                assert(cur.2[i] == st.2[i]);
            }
        }
    }
}

/// Every operating segment lasts at least the minimum.
pub proof fn lemma_segments_at_least_min(rows: Seq<(Timestamp, HpState)>, min: i64)
    ensures
        forall|i: int|
            0 <= i < state_segments(rows, min).len() ==> seconds_between(
                (#[trigger] state_segments(rows, min)[i]).0,
                state_segments(rows, min)[i].1,
            ) >= min,
{
    if rows.len() > 0 {
        lemma_seg_scan_long(rows, min);
        let st = seg_scan(rows, min);
        let segs = state_segments(rows, min);
        assert forall|i: int| 0 <= i < segs.len() implies seconds_between((#[trigger] segs[i]).0, segs[i].1) >= min by {
            if i < st.2.len() {
                assert(segs[i] == st.2[i]);
            }
        }
    }
}

/// Rows `a..=b` all have the state of row `a`, and the run starts at `a`: the series starts
/// there or the row before has another state.
pub open spec fn state_run(rows: Seq<(Timestamp, HpState)>, a: int, b: int) -> bool {
    &&& 0 <= a <= b < rows.len()
    &&& forall|k: int| a <= k <= b ==> (#[trigger] rows[k]).1 == rows[a].1
    &&& (a == 0 || rows[a - 1].1 != rows[a].1)
}

proof fn lemma_seg_take_step(rows: Seq<(Timestamp, HpState)>, n: int)
    requires
        1 < n <= rows.len(),
    ensures
        rows.take(n).drop_last() == rows.take(n - 1),
        rows.take(n).last() == rows[n - 1],
        rows.take(n).len() == n,
{
    assert(rows.take(n).drop_last() =~= rows.take(n - 1));
}

proof fn lemma_seg_state_is_last(rows: Seq<(Timestamp, HpState)>, min: i64, n: int)
    requires
        1 <= n <= rows.len(),
    ensures
        seg_scan(rows.take(n), min).1 == rows[n - 1].1,
    decreases n,
{
    if n > 1 {
        lemma_seg_take_step(rows, n);
        lemma_seg_state_is_last(rows, min, n - 1);
    }
}

proof fn lemma_seg_open_in_run(rows: Seq<(Timestamp, HpState)>, min: i64, a: int, b: int, n: int)
    requires
        state_run(rows, a, b),
        a < n <= b + 1,
    ensures
        seg_scan(rows.take(n), min).0 == rows[a].0,
        seg_scan(rows.take(n), min).1 == rows[a].1,
    decreases n,
{
    if n == 1 {
    } else {
        lemma_seg_take_step(rows, n);
        if n == a + 1 {
            lemma_seg_state_is_last(rows, min, a);
        } else {
            lemma_seg_open_in_run(rows, min, a, b, n - 1);
            assert(rows[n - 1].1 == rows[a].1);
        }
    }
}

proof fn lemma_seg_keeps_closed(rows: Seq<(Timestamp, HpState)>, min: i64, n: int, m: int)
    requires
        1 <= n <= m <= rows.len(),
    ensures
        seg_scan(rows.take(n), min).2.len() <= seg_scan(rows.take(m), min).2.len(),
        forall|i: int| 0 <= i < seg_scan(rows.take(n), min).2.len()
            ==> #[trigger] seg_scan(rows.take(m), min).2[i] == seg_scan(rows.take(n), min).2[i],
    decreases m - n,
{
    if m > n {
        lemma_seg_keeps_closed(rows, min, n, m - 1);
        lemma_seg_take_step(rows, m);
        let prev = seg_scan(rows.take(m - 1), min).2;
        let cur = seg_scan(rows.take(m), min).2;
        assert forall|i: int| 0 <= i < prev.len() implies #[trigger] cur[i] == prev[i] by {}
    }
}

/// Every maximal run of one state, whatever the state, that lasts at least the minimum is
/// reported with that state: one ended by a change of state as (its first time, the time of
/// the change), and the run at the end of the series as the last segment, ending at the
/// last sample.
pub proof fn lemma_long_runs_are_segments(rows: Seq<(Timestamp, HpState)>, min: i64, a: int, b: int)
    requires
        state_run(rows, a, b),
    ensures
        b + 1 < rows.len() && rows[b + 1].1 != rows[a].1 && seconds_between(rows[a].0, rows[b + 1].0) >= min
            ==> state_segments(rows, min).contains((rows[a].0, rows[b + 1].0, rows[a].1)),
        b + 1 == rows.len() && seconds_between(rows[a].0, rows[b].0) >= min ==> {
            let segs = state_segments(rows, min);
            segs.len() > 0 && segs.last() == (rows[a].0, rows[b].0, rows[a].1)
        },
{
    let n = rows.len() as int;
    assert(rows.take(n) =~= rows);
    let full = seg_scan(rows, min);
    if b + 1 < n && rows[b + 1].1 != rows[a].1 && seconds_between(rows[a].0, rows[b + 1].0) >= min {
        lemma_seg_open_in_run(rows, min, a, b, b + 1);
        lemma_seg_take_step(rows, b + 2);
        let before = seg_scan(rows.take(b + 1), min).2;
        let after = seg_scan(rows.take(b + 2), min).2;
        assert(after == before.push((rows[a].0, rows[b + 1].0, rows[a].1)));
        let k = before.len() as int;
        assert(after[k] == (rows[a].0, rows[b + 1].0, rows[a].1));
        lemma_seg_keeps_closed(rows, min, b + 2, n);
        assert(full.2[k] == (rows[a].0, rows[b + 1].0, rows[a].1));
        let segs = state_segments(rows, min);
        assert(segs[k] == (rows[a].0, rows[b + 1].0, rows[a].1));
    }
    if b + 1 == n && seconds_between(rows[a].0, rows[b].0) >= min {
        lemma_seg_open_in_run(rows, min, a, b, n);
    }
}

/// `seg` is the segment of the maximal run of one state from row `a` to row `b`, lasting
/// at least `min`: it ends at the next row, whose state differs, or at the last sample.
pub open spec fn is_run_segment(
    rows: Seq<(Timestamp, HpState)>,
    min: i64,
    seg: (Timestamp, Timestamp, HpState),
    a: int,
    b: int,
) -> bool {
    &&& state_run(rows, a, b)
    &&& seg.0 == rows[a].0
    &&& seg.2 == rows[a].1
    &&& seconds_between(seg.0, seg.1) >= min
    &&& ((b + 1 < rows.len() && rows[b + 1].1 != rows[a].1 && seg.1 == rows[b + 1].0) || (b + 1 == rows.len()
        && seg.1 == rows[b].0))
}

/// `seg` is the segment of a maximal run of one state lasting at least `min`.
pub open spec fn is_segment_of(rows: Seq<(Timestamp, HpState)>, min: i64, seg: (Timestamp, Timestamp, HpState)) -> bool {
    exists|a: int, b: int| is_run_segment(rows, min, seg, a, b)
}

spec fn seg_closed_before(rows: Seq<(Timestamp, HpState)>, min: i64, seg: (Timestamp, Timestamp, HpState), n: int) -> bool {
    exists|a: int, b: int| b + 1 < n && is_run_segment(rows, min, seg, a, b)
}

proof fn lemma_seg_scan_sound(rows: Seq<(Timestamp, HpState)>, min: i64, n: int)
    requires
        1 <= n <= rows.len(),
    ensures
        exists|a: int| state_run(rows, a, n - 1) && seg_scan(rows.take(n), min).0 == rows[a].0
            && seg_scan(rows.take(n), min).1 == rows[a].1,
        forall|i: int| 0 <= i < seg_scan(rows.take(n), min).2.len() ==> seg_closed_before(rows, min, #[trigger] seg_scan(rows.take(n), min).2[i], n),
    decreases n,
{
    if n == 1 {
        assert(state_run(rows, 0, 0));
    } else {
        lemma_seg_scan_sound(rows, min, n - 1);
        lemma_seg_take_step(rows, n);
        let st = seg_scan(rows.take(n - 1), min);
        let cur = seg_scan(rows.take(n), min);
        let m = n - 1;
        let a = choose|a: int| state_run(rows, a, n - 2) && st.0 == rows[a].0 && st.1 == rows[a].1;
        assert(rows[m - 1].1 == rows[a].1);
        if rows[m].1 != st.1 {
            assert(state_run(rows, m, m));
            assert forall|i: int| 0 <= i < cur.2.len() implies seg_closed_before(rows, min, #[trigger] cur.2[i], n) by {
                if i < st.2.len() {
                    assert(cur.2[i] == st.2[i]);
                    assert(seg_closed_before(rows, min, st.2[i], n - 1));
                    let (x, y) = choose|x: int, y: int| y + 1 < n - 1 && is_run_segment(rows, min, st.2[i], x, y);
                    assert(y + 1 < n && is_run_segment(rows, min, cur.2[i], x, y));
                } else {
                    assert(cur.2[i] == (st.0, rows[m].0, st.1));
                    assert(n - 2 + 1 < n && is_run_segment(rows, min, cur.2[i], a, n - 2));
                }
            }
        } else {
            assert forall|k: int| a <= k <= m implies (#[trigger] rows[k]).1 == rows[a].1 by {
                if k < m {
                    assert(state_run(rows, a, n - 2));
                }
            }
            assert(state_run(rows, a, m));
            assert forall|i: int| 0 <= i < cur.2.len() implies seg_closed_before(rows, min, #[trigger] cur.2[i], n) by {
                assert(seg_closed_before(rows, min, st.2[i], n - 1));
                let (x, y) = choose|x: int, y: int| y + 1 < n - 1 && is_run_segment(rows, min, st.2[i], x, y);
                assert(y + 1 < n && is_run_segment(rows, min, cur.2[i], x, y));
            }
        }
    }
}

/// Every segment reported is a maximal run of one state lasting at least the minimum: it
/// starts at the run's first row with the run's state, and ends at the row where the state
/// changed, or at the last sample when the run lasts to the end.
pub proof fn lemma_segments_are_runs(rows: Seq<(Timestamp, HpState)>, min: i64)
    ensures
        forall|i: int| 0 <= i < state_segments(rows, min).len() ==> is_segment_of(rows, min, #[trigger] state_segments(rows, min)[i]),
{
    let n = rows.len() as int;
    if n > 0 {
        assert(rows.take(n) =~= rows);
        lemma_seg_scan_sound(rows, min, n);
        let st = seg_scan(rows, min);
        let segs = state_segments(rows, min);
        assert forall|i: int| 0 <= i < segs.len() implies is_segment_of(rows, min, #[trigger] segs[i]) by {
            if i < st.2.len() {
                assert(segs[i] == st.2[i]);
                assert(seg_closed_before(rows, min, st.2[i], n));
                let (x, y) = choose|x: int, y: int| y + 1 < n && is_run_segment(rows, min, st.2[i], x, y);
                assert(is_run_segment(rows, min, segs[i], x, y));
            } else {
                let a = choose|a: int| state_run(rows, a, n - 1) && st.0 == rows[a].0 && st.1 == rows[a].1;
                assert(is_run_segment(rows, min, segs[i], a, n - 1));
            }
        }
    }
}

} // verus!
