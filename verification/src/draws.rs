//! Hot-water charge and draw events on a ten-second grid: the grid itself, the intervals in
//! which a condition holds, and the charge that precedes a draw.
use vstd::prelude::*;

use crate::time::{MAX_EPOCH_SECS, MIN_EPOCH_SECS};

verus! {

/// Spacing of the event grid, in seconds.
pub const GRID_STEP_SECONDS: i64 = 10;

/// `a` rounded toward zero to a multiple of ten, as `a - a % 10` gives it.
pub open spec fn grid_floor(a: int) -> int {
    if a >= 0 {
        a - a % 10
    } else {
        a + (-a) % 10
    }
}

/// The smallest of `keys`, or 0 when there are none.
pub open spec fn min_or_zero(keys: Seq<i64>) -> int
    decreases keys.len(),
{
    if keys.len() == 0 {
        0
    } else if keys.len() == 1 {
        keys[0] as int
    } else {
        let m = min_or_zero(keys.drop_last());
        if keys.last() < m {
            keys.last() as int
        } else {
            m
        }
    }
}

/// The largest of `keys`, or 0 when there are none.
pub open spec fn max_or_zero(keys: Seq<i64>) -> int
    decreases keys.len(),
{
    if keys.len() == 0 {
        0
    } else if keys.len() == 1 {
        keys[0] as int
    } else {
        let m = max_or_zero(keys.drop_last());
        if keys.last() > m {
            keys.last() as int
        } else {
            m
        }
    }
}

/// Grid times from the first series' start, rounded down to ten seconds, to the last
/// series' end, every ten seconds.
pub open spec fn grid_times(first_keys: Seq<i64>, last_keys: Seq<i64>) -> Seq<i64> {
    let start = grid_floor(min_or_zero(first_keys));
    let end = max_or_zero(last_keys);
    let n = if start > end {
        0
    } else {
        (end - start) / 10 + 1
    };
    Seq::new(n as nat, |i: int| (start + 10 * i) as i64)
}

pub open spec fn keys_in_range(keys: Seq<i64>) -> bool {
    forall|i: int| 0 <= i < keys.len() ==> MIN_EPOCH_SECS <= #[trigger] keys[i] <= MAX_EPOCH_SECS
}

fn min_or_zero_exec(keys: &[i64]) -> (r: i64)
    requires
        keys_in_range(keys@),
    ensures
        r == min_or_zero(keys@),
        MIN_EPOCH_SECS <= r <= MAX_EPOCH_SECS,
{
    if keys.len() == 0 {
        return 0;
    }
    let mut m = keys[0];
    let mut i: usize = 1;
    while i < keys.len()
        invariant
            1 <= i <= keys@.len(),
            keys_in_range(keys@),
            m == min_or_zero(keys@.take(i as int)),
            MIN_EPOCH_SECS <= m <= MAX_EPOCH_SECS,
        decreases keys@.len() - i,
    {
        proof {
            assert(keys@.take(i + 1).drop_last() =~= keys@.take(i as int));
        }
        if keys[i] < m {
            m = keys[i];
        }
        i = i + 1;
    }
    assert(keys@.take(keys@.len() as int) =~= keys@);
    m
}

fn max_or_zero_exec(keys: &[i64]) -> (r: i64)
    requires
        keys_in_range(keys@),
    ensures
        r == max_or_zero(keys@),
        MIN_EPOCH_SECS <= r <= MAX_EPOCH_SECS,
{
    if keys.len() == 0 {
        return 0;
    }
    let mut m = keys[0];
    let mut i: usize = 1;
    while i < keys.len()
        invariant
            1 <= i <= keys@.len(),
            keys_in_range(keys@),
            m == max_or_zero(keys@.take(i as int)),
            MIN_EPOCH_SECS <= m <= MAX_EPOCH_SECS,
        decreases keys@.len() - i,
    {
        proof {
            assert(keys@.take(i + 1).drop_last() =~= keys@.take(i as int));
        }
        if keys[i] > m {
            m = keys[i];
        }
        i = i + 1;
    }
    assert(keys@.take(keys@.len() as int) =~= keys@);
    m
}

/// The ten-second grid covering all series, given each series' first and last epoch second.
pub fn event_grid(first_keys: &[i64], last_keys: &[i64]) -> (r: Vec<i64>)
    requires
        keys_in_range(first_keys@),
        keys_in_range(last_keys@),
    ensures
        r@ == grid_times(first_keys@, last_keys@),
{
    let min_t = min_or_zero_exec(first_keys);
    let max_t = max_or_zero_exec(last_keys);
    let start: i64 = if min_t >= 0 {
        min_t - min_t % 10
    } else {
        min_t + (-min_t) % 10
    };
    let ghost n: int = if start > max_t {
        0
    } else {
        (max_t - start) / 10 + 1
    };
    let mut out: Vec<i64> = Vec::new();
    let mut t: i64 = start;
    while t <= max_t
        invariant
            MIN_EPOCH_SECS - 10 <= start <= MAX_EPOCH_SECS,
            MIN_EPOCH_SECS <= max_t <= MAX_EPOCH_SECS,
            start <= t,
            out@.len() == 0 || t <= max_t + 10,
            t == start + 10 * out@.len(),
            n == (if start > max_t { 0 } else { (max_t - start) / 10 + 1 }),
            out@.len() <= n,
            t <= max_t ==> out@.len() < n,
            forall|i: int| 0 <= i < out@.len() ==> #[trigger] out@[i] == start + 10 * i,
        decreases max_t + 10 - t,
    {
        out.push(t);
        t = t + 10;
    }
    assert(out@ =~= grid_times(first_keys@, last_keys@));
    out
}

/// Scan state: where the current interval started and whether the flag was seen in it,
/// if one is open, and the closed intervals.
pub type IntervalScan = (Option<(i64, bool)>, Seq<(i64, i64, bool)>);

/// One grid step `(time, active, flag)`: an active step opens an interval (noting the flag)
/// or keeps the open one (noting the flag); an inactive step closes the open interval, which
/// is kept when it lasted at least `min` seconds, if a minimum is given.
pub open spec fn interval_step(st: IntervalScan, step: (i64, bool, bool), min: Option<i64>) -> IntervalScan {
    let (t, active, flag) = step;
    if active {
        match st.0 {
            None => (Some((t, flag)), st.1),
            Some((s, seen)) => (Some((s, seen || flag)), st.1),
        }
    } else {
        match st.0 {
            None => st,
            Some((s, seen)) => (None, if min is None || t - s >= min.unwrap() {
                st.1.push((s, t, seen))
            } else {
                st.1
            }),
        }
    }
}

pub open spec fn interval_scan(steps: Seq<(i64, bool, bool)>, min: Option<i64>) -> IntervalScan
    decreases steps.len(),
{
    if steps.len() == 0 {
        (None, Seq::empty())
    } else {
        interval_step(interval_scan(steps.drop_last(), min), steps.last(), min)
    }
}

pub open spec fn steps_in_range(steps: Seq<(i64, bool, bool)>) -> bool {
    forall|i: int| 0 <= i < steps.len() ==> MIN_EPOCH_SECS <= (#[trigger] steps[i]).0 <= MAX_EPOCH_SECS
}

/// The closed intervals in which `active` held, each as (start, end, whether `flag` was
/// seen while it was open). An interval still open after the last step is not reported.
pub fn active_intervals(steps: &[(i64, bool, bool)], min_len: Option<i64>) -> (r: Vec<(i64, i64, bool)>)
    requires
        steps_in_range(steps@),
    ensures
        r@ == interval_scan(steps@, min_len).1,
{
    let mut out: Vec<(i64, i64, bool)> = Vec::new();
    let mut open: Option<(i64, bool)> = None;
    let mut i: usize = 0;
    while i < steps.len()
        invariant
            i <= steps@.len(),
            steps_in_range(steps@),
            (open, out@) == interval_scan(steps@.take(i as int), min_len),
            open matches Some(o) ==> MIN_EPOCH_SECS <= o.0 <= MAX_EPOCH_SECS,
        decreases steps@.len() - i,
    {
        proof {
            assert(steps@.take(i + 1).drop_last() =~= steps@.take(i as int));
            assert(steps@.take(i + 1).last() == steps@[i as int]);
        }
        let (t, active, flag) = steps[i];
        if active {
            open = match open {
                None => Some((t, flag)),
                Some((s, seen)) => Some((s, seen || flag)),
            };
        } else {
            match open {
                None => {},
                Some((s, seen)) => {
                    let keep = match min_len {
                        None => true,
                        Some(m) => t - s >= m,
                    };
                    if keep {
                        out.push((s, t, seen));
                    }
                    open = None;
                },
            }
        }
        i = i + 1;
    }
    assert(steps@.take(steps@.len() as int) =~= steps@);
    out
}

/// Every reported interval lasted at least the minimum, when one is given.
pub proof fn lemma_intervals_at_least_min(steps: Seq<(i64, bool, bool)>, min: Option<i64>)
    ensures
        forall|i: int|
            0 <= i < interval_scan(steps, min).1.len() ==> (min matches Some(m) ==> (#[trigger] interval_scan(steps, min).1[i]).1 - interval_scan(steps, min).1[i].0 >= m),
    decreases steps.len(),
{
    if steps.len() > 0 {
        lemma_intervals_at_least_min(steps.drop_last(), min);
        let st = interval_scan(steps.drop_last(), min);
        let cur = interval_scan(steps, min);
        assert forall|i: int| 0 <= i < cur.1.len() implies (min matches Some(m) ==> (#[trigger] cur.1[i]).1 - cur.1[i].0 >= m) by {
            if i < st.1.len() {
                assert(cur.1[i] == st.1[i]);
            }
        }
    }
}

/// `i` is the charge that precedes a draw starting at `start`: among charges that ended by
/// then, the one that ended last (the later-listed one where several ended together).
pub open spec fn is_preceding(ends: Seq<i64>, start: i64, i: int) -> bool {
    &&& 0 <= i < ends.len()
    &&& ends[i] <= start
    &&& forall|j: int| 0 <= j < ends.len() && ends[j] <= start ==> ends[j] <= ends[i]
    &&& forall|j: int| i < j < ends.len() && ends[j] <= start ==> ends[j] < ends[i]
}

/// The charge preceding a draw, given the charges' end times, if any ended by its start.
pub fn preceding_charge_index(charge_ends: &[i64], draw_start: i64) -> (r: Option<usize>)
    ensures
        r matches Some(i) ==> is_preceding(charge_ends@, draw_start, i as int),
        r is None <==> forall|j: int| 0 <= j < charge_ends@.len() ==> charge_ends@[j] > draw_start,
{
    let mut best: Option<usize> = None;
    let mut i: usize = 0;
    while i < charge_ends.len()
        invariant
            i <= charge_ends@.len(),
            best is None <==> forall|j: int| 0 <= j < i ==> charge_ends@[j] > draw_start,
            best matches Some(b) ==> is_preceding(charge_ends@.take(i as int), draw_start, b as int),
        decreases charge_ends@.len() - i,
    {
        let e = charge_ends[i];
        if e <= draw_start {
            match best {
                None => {
                    best = Some(i);
                },
                Some(b) => {
                    if e >= charge_ends[b] {
                        best = Some(i);
                    }
                },
            }
        }
        proof {
            let t = charge_ends@.take(i + 1);
            assert(t.take(i as int) =~= charge_ends@.take(i as int));
            if let Some(b) = best {
                assert forall|j: int| 0 <= j < t.len() && t[j] <= draw_start implies t[j] <= t[b as int] by {
                    if j < i {
                        assert(t[j] == charge_ends@.take(i as int)[j]);
                    }
                }
            }
        }
        i = i + 1;
    }
    assert(charge_ends@.take(charge_ends@.len() as int) =~= charge_ends@);
    best
}

/// Shortest charge kept, in seconds.
pub const CHARGE_MIN_SECONDS: i64 = 300;

/// A draw found on the grid, with what its analysis needs from around it.
#[derive(Debug, Clone, Copy, PartialEq, Eq)]
pub struct DrawSpan {
    /// First grid time with flow above the draw threshold.
    pub start: i64,
    /// First grid time after it with flow at or below the threshold.
    pub end: i64,
    /// Whether the boiler charged the cylinder at some step of the draw.
    pub during_charge: bool,
    /// Index among the kept charges of the one that ended last by the draw's start.
    pub preceding_charge: Option<usize>,
    /// End of the draw found before this one, if any.
    pub previous_end: Option<i64>,
}

/// Charge steps `(time, charging)` as interval steps with no flag.
pub open spec fn charge_steps_of(steps: Seq<(i64, bool)>) -> Seq<(i64, bool, bool)> {
    steps.map_values(|s: (i64, bool)| (s.0, s.1, false))
}

/// The charges kept: intervals of at least the minimum length that start once the top
/// sensor has a reading (at or after `t1_from`), as (start, end).
pub open spec fn kept_charges(iv: Seq<(i64, i64, bool)>, t1_from: Option<i64>) -> Seq<(i64, i64)>
    decreases iv.len(),
{
    if iv.len() == 0 {
        Seq::empty()
    } else {
        let prev = kept_charges(iv.drop_last(), t1_from);
        let c = iv.last();
        if t1_from matches Some(f) && f <= c.0 {
            prev.push((c.0, c.1))
        } else {
            prev
        }
    }
}

/// The charges of the grid: closed intervals of charging that lasted at least
/// `CHARGE_MIN_SECONDS` and start once the top sensor has a reading.
pub open spec fn charge_spans_of(steps: Seq<(i64, bool)>, t1_from: Option<i64>) -> Seq<(i64, i64)> {
    kept_charges(interval_scan(charge_steps_of(steps), Some(CHARGE_MIN_SECONDS)).1, t1_from)
}

/// The draws of the grid: closed intervals of flow, each noting whether charging was seen.
pub open spec fn draw_intervals_of(steps: Seq<(i64, bool, bool)>) -> Seq<(i64, i64, bool)> {
    interval_scan(steps, None).1
}

pub open spec fn ends_of(charges: Seq<(i64, i64)>) -> Seq<i64> {
    charges.map_values(|c: (i64, i64)| c.1)
}

/// What is reported of draw `k` among `draws`, given the kept charges.
pub open spec fn draw_span_ok(d: DrawSpan, draws: Seq<(i64, i64, bool)>, k: int, charges: Seq<(i64, i64)>) -> bool {
    &&& d.start == draws[k].0
    &&& d.end == draws[k].1
    &&& d.during_charge == draws[k].2
    &&& d.previous_end == (if k == 0 { None } else { Some(draws[k - 1].1) })
    &&& (d.preceding_charge matches Some(i) ==> is_preceding(ends_of(charges), d.start, i as int))
    &&& (d.preceding_charge is None <==> forall|j: int| 0 <= j < charges.len() ==> charges[j].1 > d.start)
}

/// The charges and draws of the hot-water grid. Each charge step says whether the boiler's
/// building-circuit flow showed charging; each draw step whether hot water flowed and
/// whether charging was seen then. A charge is kept when it lasted `CHARGE_MIN_SECONDS` and
/// the top sensor had a reading (from `t1_from`) when it began; every closed draw is given,
/// with the kept charge that ended last by its start and the end of the draw before it.
pub fn dhw_event_spans(
    charge_steps: &[(i64, bool)],
    t1_from: Option<i64>,
    draw_steps: &[(i64, bool, bool)],
) -> (r: (Vec<(i64, i64)>, Vec<DrawSpan>))
    requires
        forall|i: int| 0 <= i < charge_steps@.len() ==> MIN_EPOCH_SECS <= (#[trigger] charge_steps@[i]).0 <= MAX_EPOCH_SECS,
        steps_in_range(draw_steps@),
    ensures
        r.0@ == charge_spans_of(charge_steps@, t1_from),
        r.1@.len() == draw_intervals_of(draw_steps@).len(),
        forall|k: int| 0 <= k < r.1@.len() ==> draw_span_ok(#[trigger] r.1@[k], draw_intervals_of(draw_steps@), k, r.0@),
{
    let mut flagged: Vec<(i64, bool, bool)> = Vec::new();
    let mut i: usize = 0;
    while i < charge_steps.len()
        invariant
            i <= charge_steps@.len(),
            flagged@ == charge_steps_of(charge_steps@.take(i as int)),
        decreases charge_steps@.len() - i,
    {
        let (t, on) = charge_steps[i];
        proof {
            assert(charge_steps_of(charge_steps@.take(i + 1)) =~= charge_steps_of(charge_steps@.take(i as int)).push((t, on, false)));
        }
        flagged.push((t, on, false));
        i = i + 1;
    }
    assert(charge_steps@.take(charge_steps@.len() as int) =~= charge_steps@);
    assert(steps_in_range(flagged@));
    let intervals = active_intervals(flagged.as_slice(), Some(CHARGE_MIN_SECONDS));
    let mut charges: Vec<(i64, i64)> = Vec::new();
    let mut ends: Vec<i64> = Vec::new();
    let mut j: usize = 0;
    while j < intervals.len()
        invariant
            j <= intervals@.len(),
            charges@ == kept_charges(intervals@.take(j as int), t1_from),
            ends@ == ends_of(charges@),
        decreases intervals@.len() - j,
    {
        let (s, e, _) = intervals[j];
        proof {
            assert(intervals@.take(j + 1).drop_last() =~= intervals@.take(j as int));
        }
        let keep = match t1_from {
            Some(f) => f <= s,
            None => false,
        };
        if keep {
            charges.push((s, e));
            ends.push(e);
            assert(ends@ =~= ends_of(charges@));
        }
        j = j + 1;
    }
    assert(intervals@.take(intervals@.len() as int) =~= intervals@);
    let draws = active_intervals(draw_steps, None);
    let ghost dv = draws@;
    let mut spans: Vec<DrawSpan> = Vec::new();
    let mut k: usize = 0;
    while k < draws.len()
        invariant
            k <= draws@.len(),
            dv == draws@,
            dv == draw_intervals_of(draw_steps@),
            ends@ == ends_of(charges@),
            spans@.len() == k,
            forall|m: int| 0 <= m < k ==> draw_span_ok(#[trigger] spans@[m], dv, m, charges@),
        decreases draws@.len() - k,
    {
        let (s, e, seen) = draws[k];
        let previous_end = if k == 0 {
            None
        } else {
            Some(draws[k - 1].1)
        };
        let preceding = preceding_charge_index(ends.as_slice(), s);
        let span = DrawSpan { start: s, end: e, during_charge: seen, preceding_charge: preceding, previous_end };
        spans.push(span);
        proof {
            let d = spans@[k as int];
            assert(d == span);
            assert(d.start == dv[k as int].0 && d.end == dv[k as int].1 && d.during_charge == dv[k as int].2);
            assert(d.previous_end == (if k == 0 { None } else { Some(dv[k - 1].1) }));
            assert(d.preceding_charge matches Some(i) ==> is_preceding(ends_of(charges@), d.start, i as int));
            assert(ends@.len() == charges@.len());
            if d.preceding_charge is None {
                assert forall|j: int| 0 <= j < charges@.len() implies charges@[j].1 > d.start by {
                    assert(ends@[j] > s);
                }
            } else {
                if forall|j: int| 0 <= j < charges@.len() ==> charges@[j].1 > d.start {
                    assert forall|j: int| 0 <= j < ends@.len() implies ends@[j] > s by {
                        assert(charges@[j].1 > s);
                    }
                }
            }
            assert(d.preceding_charge is None <==> forall|j: int| 0 <= j < charges@.len() ==> charges@[j].1 > d.start);
            assert(draw_span_ok(spans@[k as int], dv, k as int, charges@));
            assert forall|m: int| 0 <= m <= k implies draw_span_ok(#[trigger] spans@[m], dv, m, charges@) by {
                if m < k {
                    assert(spans@[m] == spans@.drop_last()[m]);
                }
            }
        }
        k = k + 1;
    }
    (charges, spans)
}

proof fn lemma_kept_from(iv: Seq<(i64, i64, bool)>, t1_from: Option<i64>, m: i64)
    requires
        forall|j: int| 0 <= j < iv.len() ==> (#[trigger] iv[j]).1 - iv[j].0 >= m,
    ensures
        forall|i: int| 0 <= i < kept_charges(iv, t1_from).len() ==> (#[trigger] kept_charges(iv, t1_from)[i]).1 - kept_charges(iv, t1_from)[i].0 >= m,
    decreases iv.len(),
{
    if iv.len() > 0 {
        let prev = iv.drop_last();
        assert forall|j: int| 0 <= j < prev.len() implies (#[trigger] prev[j]).1 - prev[j].0 >= m by {
            assert(prev[j] == iv[j]);
        }
        lemma_kept_from(prev, t1_from, m);
        let cur = kept_charges(iv, t1_from);
        let old = kept_charges(prev, t1_from);
        assert forall|i: int| 0 <= i < cur.len() implies (#[trigger] cur[i]).1 - cur[i].0 >= m by {
            if i < old.len() {
                assert(cur[i] == old[i]);
            } else {
                assert(iv.last() == iv[iv.len() - 1]);
            }
        }
    }
}

/// Every charge found lasted at least `CHARGE_MIN_SECONDS`.
pub proof fn lemma_charges_long_enough(steps: Seq<(i64, bool)>, t1_from: Option<i64>)
    ensures
        forall|i: int| 0 <= i < charge_spans_of(steps, t1_from).len() ==> (#[trigger] charge_spans_of(steps, t1_from)[i]).1 - charge_spans_of(steps, t1_from)[i].0 >= CHARGE_MIN_SECONDS,
{
    let iv = interval_scan(charge_steps_of(steps), Some(CHARGE_MIN_SECONDS)).1;
    lemma_intervals_at_least_min(charge_steps_of(steps), Some(CHARGE_MIN_SECONDS));
    assert forall|j: int| 0 <= j < iv.len() implies (#[trigger] iv[j]).1 - iv[j].0 >= CHARGE_MIN_SECONDS by {
        assert(interval_scan(charge_steps_of(steps), Some(CHARGE_MIN_SECONDS)).1[j] == iv[j]);
    }
    lemma_kept_from(iv, t1_from, CHARGE_MIN_SECONDS);
}

} // verus!
