//! Cooldown periods: stretches in which the heat pump reports a heating-off status code.
use vstd::prelude::*;

use crate::time::{seconds_between, seconds_between_exec, Timestamp};

verus! {

pub type CoolState = (Option<Timestamp>, Seq<(Timestamp, Timestamp)>);

/// One status sample: an off code opens a cooldown (if none is open); any other code
/// closes the open one, which is kept when it lasted longer than `min` seconds.
pub open spec fn cool_step(st: CoolState, row: (Timestamp, i32), off: Seq<i32>, min: i64) -> CoolState {
    if off.contains(row.1) {
        if st.0 is None {
            (Some(row.0), st.1)
        } else {
            st
        }
    } else {
        match st.0 {
            Some(s) => (None, if seconds_between(s, row.0) > min {
                st.1.push((s, row.0))
            } else {
                st.1
            }),
            None => st,
        }
    }
}

pub open spec fn cool_scan(rows: Seq<(Timestamp, i32)>, off: Seq<i32>, min: i64) -> CoolState
    decreases rows.len(),
{
    if rows.len() == 0 {
        (None, Seq::empty())
    } else {
        cool_step(cool_scan(rows.drop_last(), off, min), rows.last(), off, min)
    }
}

/// Cooldown periods of a status series: a cooldown still open after the last sample ends
/// at that sample.
pub open spec fn cooldown_periods(rows: Seq<(Timestamp, i32)>, off: Seq<i32>, min: i64) -> Seq<(Timestamp, Timestamp)> {
    let st = cool_scan(rows, off, min);
    match st.0 {
        Some(s) => if rows.len() > 0 && seconds_between(s, rows.last().0) > min {
            st.1.push((s, rows.last().0))
        } else {
            st.1
        },
        None => st.1,
    }
}

pub open spec fn status_wf(rows: Seq<(Timestamp, i32)>) -> bool {
    forall|i: int| 0 <= i < rows.len() ==> (#[trigger] rows[i]).0.wf()
}

fn code_in(codes: &[i32], c: i32) -> (r: bool)
    ensures
        r == codes@.contains(c),
{
    let mut i: usize = 0;
    while i < codes.len()
        invariant
            i <= codes.len(),
            forall|j: int| 0 <= j < i ==> codes@[j] != c,
        decreases codes.len() - i,
    {
        if codes[i] == c {
            return true;
        }
        i = i + 1;
    }
    false
}

/// Periods in which the status code stayed among the heating-off codes for longer than
/// `min_period_seconds`.
pub fn detect_cooldown_periods(
    status_rows: &[(Timestamp, i32)],
    heating_off_codes: &[i32],
    min_period_seconds: i64,
) -> (r: Vec<(Timestamp, Timestamp)>)
    requires
        status_wf(status_rows@),
    ensures
        r@ == cooldown_periods(status_rows@, heating_off_codes@, min_period_seconds),
{
    let ghost rows = status_rows@;
    let mut periods: Vec<(Timestamp, Timestamp)> = Vec::new();
    let mut start: Option<Timestamp> = None;
    let mut i: usize = 0;
    while i < status_rows.len()
        invariant
            i <= status_rows.len(),
            rows == status_rows@,
            status_wf(rows),
            cool_scan(rows.take(i as int), heating_off_codes@, min_period_seconds) == (start, periods@),
            start matches Some(s) ==> s.wf(),
        decreases status_rows.len() - i,
    {
        let (t, code) = status_rows[i];
        proof {
            assert(rows.take(i + 1).drop_last() =~= rows.take(i as int));
            assert(rows.take(i + 1).last() == rows[i as int]);
            assert(rows[i as int].0.wf());
        }
        if code_in(heating_off_codes, code) {
            if start.is_none() {
                start = Some(t);
            }
        } else if let Some(s) = start {
            if seconds_between_exec(&s, &t) > min_period_seconds {
                periods.push((s, t));
            }
            start = None;
        }
        i = i + 1;
    }
    assert(rows.take(status_rows.len() as int) =~= rows);
    if let Some(s) = start {
        if status_rows.len() > 0 {
            let end = status_rows[status_rows.len() - 1].0;
            assert(rows[rows.len() - 1].0.wf());
            if seconds_between_exec(&s, &end) > min_period_seconds {
                periods.push((s, end));
            }
        }
    }
    periods
}

proof fn lemma_cool_scan_long(rows: Seq<(Timestamp, i32)>, off: Seq<i32>, min: i64)
    ensures
        forall|i: int|
            0 <= i < cool_scan(rows, off, min).1.len() ==> seconds_between(
                (#[trigger] cool_scan(rows, off, min).1[i]).0,
                cool_scan(rows, off, min).1[i].1,
            ) > min,
    decreases rows.len(),
{
    if rows.len() > 0 {
        lemma_cool_scan_long(rows.drop_last(), off, min);
        let st = cool_scan(rows.drop_last(), off, min);
        let cur = cool_scan(rows, off, min);
        assert forall|i: int| 0 <= i < cur.1.len() implies seconds_between(
            (#[trigger] cur.1[i]).0,
            cur.1[i].1,
        ) > min by {
            if i < st.1.len() {
                assert(cur.1[i] == st.1[i]);
            }
        }
    }
}

/// Every cooldown period lasts longer than the minimum.
pub proof fn lemma_cooldowns_longer_than_min(rows: Seq<(Timestamp, i32)>, off: Seq<i32>, min: i64)
    ensures
        forall|i: int|
            0 <= i < cooldown_periods(rows, off, min).len() ==> seconds_between(
                (#[trigger] cooldown_periods(rows, off, min)[i]).0,
                cooldown_periods(rows, off, min)[i].1,
            ) > min,
{
    lemma_cool_scan_long(rows, off, min);
    let st = cool_scan(rows, off, min);
    let ps = cooldown_periods(rows, off, min);
    assert forall|i: int| 0 <= i < ps.len() implies seconds_between((#[trigger] ps[i]).0, ps[i].1) > min by {
        if i < st.1.len() {
            assert(ps[i] == st.1[i]);
        }
    }
}

/// Rows `a..=b` all carry off codes and the run starts at `a`: the series starts there or
/// the row before carries another code.
pub open spec fn off_run(rows: Seq<(Timestamp, i32)>, off: Seq<i32>, a: int, b: int) -> bool {
    &&& 0 <= a <= b < rows.len()
    &&& forall|k: int| a <= k <= b ==> off.contains(#[trigger] rows[k].1)
    &&& (a == 0 || !off.contains(rows[a - 1].1))
}

proof fn lemma_take_step<T>(rows: Seq<T>, n: int)
    requires
        0 < n <= rows.len(),
    ensures
        rows.take(n).drop_last() == rows.take(n - 1),
        rows.take(n).last() == rows[n - 1],
{
    assert(rows.take(n).drop_last() =~= rows.take(n - 1));
}

proof fn lemma_cool_closed_after_other(rows: Seq<(Timestamp, i32)>, off: Seq<i32>, min: i64, n: int)
    requires
        0 <= n <= rows.len(),
        n == 0 || !off.contains(rows[n - 1].1),
    ensures
        cool_scan(rows.take(n), off, min).0 is None,
{
    if n > 0 {
        lemma_take_step(rows, n);
    }
}

proof fn lemma_cool_open_in_run(rows: Seq<(Timestamp, i32)>, off: Seq<i32>, min: i64, a: int, b: int, n: int)
    requires
        off_run(rows, off, a, b),
        a < n <= b + 1,
    ensures
        cool_scan(rows.take(n), off, min).0 == Some(rows[a].0),
    decreases n,
{
    lemma_take_step(rows, n);
    assert(off.contains(rows[n - 1].1));
    if n == a + 1 {
        lemma_cool_closed_after_other(rows, off, min, a);
    } else {
        lemma_cool_open_in_run(rows, off, min, a, b, n - 1);
    }
}

proof fn lemma_cool_keeps_closed(rows: Seq<(Timestamp, i32)>, off: Seq<i32>, min: i64, n: int, m: int)
    requires
        0 <= n <= m <= rows.len(),
    ensures
        cool_scan(rows.take(n), off, min).1.len() <= cool_scan(rows.take(m), off, min).1.len(),
        forall|i: int| 0 <= i < cool_scan(rows.take(n), off, min).1.len()
            ==> #[trigger] cool_scan(rows.take(m), off, min).1[i] == cool_scan(rows.take(n), off, min).1[i],
    decreases m - n,
{
    if m > n {
        lemma_cool_keeps_closed(rows, off, min, n, m - 1);
        lemma_take_step(rows, m);
        let prev = cool_scan(rows.take(m - 1), off, min).1;
        let cur = cool_scan(rows.take(m), off, min).1;
        assert forall|i: int| 0 <= i < prev.len() implies #[trigger] cur[i] == prev[i] by {}
    }
}

/// Every maximal run of off codes that lasts longer than the minimum is reported: one
/// closed by another code as (its first time, the time of that code), and one still open at
/// the last sample as the last period, ending at that sample.
pub proof fn lemma_long_off_runs_reported(rows: Seq<(Timestamp, i32)>, off: Seq<i32>, min: i64, a: int, b: int)
    requires
        off_run(rows, off, a, b),
    ensures
        b + 1 < rows.len() && !off.contains(rows[b + 1].1) && seconds_between(rows[a].0, rows[b + 1].0) > min
            ==> cooldown_periods(rows, off, min).contains((rows[a].0, rows[b + 1].0)),
        b + 1 == rows.len() && seconds_between(rows[a].0, rows[b].0) > min ==> {
            let ps = cooldown_periods(rows, off, min);
            ps.len() > 0 && ps.last() == (rows[a].0, rows[b].0)
        },
{
    let n = rows.len() as int;
    assert(rows.take(n) =~= rows);
    let full = cool_scan(rows, off, min);
    if b + 1 < n && !off.contains(rows[b + 1].1) && seconds_between(rows[a].0, rows[b + 1].0) > min {
        lemma_cool_open_in_run(rows, off, min, a, b, b + 1);
        lemma_take_step(rows, b + 2);
        let before = cool_scan(rows.take(b + 1), off, min).1;
        let after = cool_scan(rows.take(b + 2), off, min).1;
        assert(after == before.push((rows[a].0, rows[b + 1].0)));
        let k = before.len() as int;
        assert(after[k] == (rows[a].0, rows[b + 1].0));
        lemma_cool_keeps_closed(rows, off, min, b + 2, n);
        assert(full.1[k] == (rows[a].0, rows[b + 1].0));
        let ps = cooldown_periods(rows, off, min);
        assert(ps[k] == (rows[a].0, rows[b + 1].0));
    }
    if b + 1 == n && seconds_between(rows[a].0, rows[b].0) > min {
        lemma_cool_open_in_run(rows, off, min, a, b, n);
    }
}

/// `p` is a maximal run of off codes from row `a` to row `b` that lasted longer than `min`,
/// ended by the next row's other code or by the end of the series.
pub open spec fn is_off_run_period(rows: Seq<(Timestamp, i32)>, off: Seq<i32>, min: i64, p: (Timestamp, Timestamp), a: int, b: int) -> bool {
    &&& off_run(rows, off, a, b)
    &&& p.0 == rows[a].0
    &&& seconds_between(p.0, p.1) > min
    &&& ((b + 1 < rows.len() && !off.contains(rows[b + 1].1) && p.1 == rows[b + 1].0) || (b + 1 == rows.len()
        && p.1 == rows[b].0))
}

/// `p` is the period of a maximal run of off codes longer than `min`.
pub open spec fn is_cooldown_of(rows: Seq<(Timestamp, i32)>, off: Seq<i32>, min: i64, p: (Timestamp, Timestamp)) -> bool {
    exists|a: int, b: int| is_off_run_period(rows, off, min, p, a, b)
}

spec fn closed_before(rows: Seq<(Timestamp, i32)>, off: Seq<i32>, min: i64, p: (Timestamp, Timestamp), n: int) -> bool {
    exists|a: int, b: int| b + 1 < n && is_off_run_period(rows, off, min, p, a, b)
}

proof fn lemma_cool_scan_sound(rows: Seq<(Timestamp, i32)>, off: Seq<i32>, min: i64, n: int)
    requires
        0 <= n <= rows.len(),
    ensures
        cool_scan(rows.take(n), off, min).0 matches Some(s) ==> exists|a: int| off_run(rows, off, a, n - 1) && s == rows[a].0,
        forall|i: int| 0 <= i < cool_scan(rows.take(n), off, min).1.len() ==> closed_before(rows, off, min, #[trigger] cool_scan(rows.take(n), off, min).1[i], n),
    decreases n,
{
    if n > 0 {
        lemma_cool_scan_sound(rows, off, min, n - 1);
        lemma_take_step(rows, n);
        let st = cool_scan(rows.take(n - 1), off, min);
        let cur = cool_scan(rows.take(n), off, min);
        let m = n - 1;
        if off.contains(rows[m].1) {
            match st.0 {
                None => {
                    if m > 0 && off.contains(rows[m - 1].1) {
                        lemma_take_step(rows, m);
                    }
                    assert(off_run(rows, off, m, m));
                },
                Some(s) => {
                    let a = choose|a: int| off_run(rows, off, a, n - 2) && s == rows[a].0;
                    assert forall|k: int| a <= k <= m implies off.contains(#[trigger] rows[k].1) by {
                        if k < m {
                            assert(off_run(rows, off, a, n - 2));
                        }
                    }
                    assert(off_run(rows, off, a, m));
                },
            }
            assert(cur.1 == st.1);
            assert forall|i: int| 0 <= i < cur.1.len() implies closed_before(rows, off, min, #[trigger] cur.1[i], n) by {
                assert(closed_before(rows, off, min, st.1[i], n - 1));
                let (a, b) = choose|a: int, b: int| b + 1 < n - 1 && is_off_run_period(rows, off, min, st.1[i], a, b);
                assert(b + 1 < n && is_off_run_period(rows, off, min, cur.1[i], a, b));
            }
        } else {
            assert forall|i: int| 0 <= i < cur.1.len() implies closed_before(rows, off, min, #[trigger] cur.1[i], n) by {
                if i < st.1.len() {
                    assert(cur.1[i] == st.1[i]);
                    assert(closed_before(rows, off, min, st.1[i], n - 1));
                    let (a, b) = choose|a: int, b: int| b + 1 < n - 1 && is_off_run_period(rows, off, min, st.1[i], a, b);
                    assert(b + 1 < n && is_off_run_period(rows, off, min, cur.1[i], a, b));
                } else {
                    let s = st.0.unwrap();
                    let a = choose|a: int| off_run(rows, off, a, n - 2) && s == rows[a].0;
                    assert(cur.1[i] == (s, rows[m].0));
                    assert(n - 2 + 1 < n && is_off_run_period(rows, off, min, cur.1[i], a, n - 2));
                }
            }
        }
    }
}

/// Every reported period is a maximal run of off codes longer than the minimum: it starts
/// at the run's first row and ends at the row whose code ended the run, or at the last
/// sample when the run lasts to the end.
pub proof fn lemma_periods_are_off_runs(rows: Seq<(Timestamp, i32)>, off: Seq<i32>, min: i64)
    ensures
        forall|i: int| 0 <= i < cooldown_periods(rows, off, min).len() ==> is_cooldown_of(rows, off, min, #[trigger] cooldown_periods(rows, off, min)[i]),
{
    let n = rows.len() as int;
    assert(rows.take(n) =~= rows);
    lemma_cool_scan_sound(rows, off, min, n);
    let st = cool_scan(rows, off, min);
    let ps = cooldown_periods(rows, off, min);
    assert forall|i: int| 0 <= i < ps.len() implies is_cooldown_of(rows, off, min, #[trigger] ps[i]) by {
        if i < st.1.len() {
            assert(ps[i] == st.1[i]);
            assert(closed_before(rows, off, min, st.1[i], n));
            let (a, b) = choose|a: int, b: int| b + 1 < n && is_off_run_period(rows, off, min, st.1[i], a, b);
            assert(is_off_run_period(rows, off, min, ps[i], a, b));
        } else {
            let s = st.0.unwrap();
            let a = choose|a: int| off_run(rows, off, a, n - 1) && s == rows[a].0;
            assert(is_off_run_period(rows, off, min, ps[i], a, n - 1));
        }
    }
}

} // verus!
