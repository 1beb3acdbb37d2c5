//! Periods in which a signal is active, recovered from state changes and samples.
use vstd::prelude::*;

use crate::error::ThermalError;
use crate::flux::{lookup, CellsView, FluxRow};
use crate::text::{i32_of, parse_i32};
use crate::time::{parse_dt, parsed_dt, seconds_between, seconds_between_exec, ts_of, Timestamp};

verus! {

/// A span of time from `start` to `end`.
#[derive(Debug, Clone, Copy, PartialEq, Eq)]
pub struct Period {
    pub start: Timestamp,
    pub end: Timestamp,
}

impl Period {
    /// Whole seconds from start to end, truncated toward zero.
    pub fn duration_seconds(&self) -> (r: i64)
        requires
            self.start.wf(),
            self.end.wf(),
        ensures
            r == seconds_between(self.start, self.end),
    {
        seconds_between_exec(&self.start, &self.end)
    }
}

/// A period from `start` to `end` is kept when it lasts at least the minimum, if any.
pub open spec fn long_enough(start: Timestamp, end: Timestamp, min: Option<i64>) -> bool {
    match min {
        Some(m) => seconds_between(start, end) >= m,
        None => true,
    }
}

/// Scan state: where the current period started, if one is open, and the closed periods.
pub type ScanState = (Option<Timestamp>, Seq<Period>);

/// One state-change row: `_time` and a nonzero `active` step (positive opens, negative
/// closes). Rows missing either column, or with either empty, leave the state as it is;
/// an unparsable `active` counts as 0; an unparsable `_time` is an error (`None`).
pub open spec fn change_step(st: ScanState, row: CellsView, min: Option<i64>) -> Option<ScanState> {
    let t = lookup(row, "_time"@);
    let a = lookup(row, "active"@);
    if t is None || a is None || t.unwrap().len() == 0 || a.unwrap().len() == 0 {
        Some(st)
    } else if parsed_dt(t.unwrap()) is None {
        None
    } else {
        let ts = ts_of(parsed_dt(t.unwrap()).unwrap());
        let act = match i32_of(a.unwrap()) {
            Some(v) => v,
            None => 0,
        };
        if act > 0 {
            Some((if st.0 is None { Some(ts) } else { st.0 }, st.1))
        } else if act < 0 {
            match st.0 {
                Some(s) => Some((None, if long_enough(s, ts, min) {
                    st.1.push(Period { start: s, end: ts })
                } else {
                    st.1
                })),
                None => Some(st),
            }
        } else {
            Some(st)
        }
    }
}

/// The state after the first rows, starting open at `since` when the signal was already
/// active before the window.
pub open spec fn change_scan(
    rows: Seq<CellsView>,
    since: Timestamp,
    baseline: bool,
    min: Option<i64>,
) -> Option<ScanState>
    decreases rows.len(),
{
    if rows.len() == 0 {
        Some((if baseline { Some(since) } else { None }, Seq::empty()))
    } else {
        match change_scan(rows.drop_last(), since, baseline, min) {
            Some(st) => change_step(st, rows.last(), min),
            None => None,
        }
    }
}

/// The periods of a window from its state changes: a period still open at the end of the
/// rows closes at `until`.
pub open spec fn change_periods(
    rows: Seq<CellsView>,
    since: Timestamp,
    until: Timestamp,
    baseline: bool,
    min: Option<i64>,
) -> Option<Seq<Period>> {
    match change_scan(rows, since, baseline, min) {
        None => None,
        Some(st) => Some(match st.0 {
            Some(s) => if long_enough(s, until, min) {
                st.1.push(Period { start: s, end: until })
            } else {
                st.1
            },
            None => st.1,
        }),
    }
}

proof fn lemma_scan_none_persists(
    rows: Seq<CellsView>,
    k: int,
    since: Timestamp,
    baseline: bool,
    min: Option<i64>,
)
    requires
        0 <= k <= rows.len(),
        change_scan(rows.take(k), since, baseline, min) is None,
    ensures
        change_scan(rows, since, baseline, min) is None,
    decreases rows.len() - k,
{
    if k < rows.len() {
        assert(rows.drop_last().take(k) =~= rows.take(k));
        lemma_scan_none_persists(rows.drop_last(), k, since, baseline, min);
    } else {
        assert(rows.take(k) =~= rows);
    }
}

pub open spec fn rows_cells(rows: Seq<FluxRow>) -> Seq<CellsView> {
    rows.map_values(|r: FluxRow| r@)
}

pub open spec fn periods_wf(ps: Seq<Period>) -> bool {
    forall|i: int| 0 <= i < ps.len() ==> (#[trigger] ps[i]).start.wf() && ps[i].end.wf()
}

fn keep_period(start: &Timestamp, end: &Timestamp, min: Option<i64>) -> (r: bool)
    requires
        start.wf(),
        end.wf(),
    ensures
        r == long_enough(*start, *end, min),
{
    match min {
        Some(m) => seconds_between_exec(start, end) >= m,
        None => true,
    }
}

/// Periods in which a signal was active, from rows of `_time` and `active` state steps
/// (as Flux's `difference()` of a 0/1 signal gives them).
pub fn state_change_periods(
    rows: &Vec<FluxRow>,
    since: &Timestamp,
    until: &Timestamp,
    baseline_active: bool,
    min_duration_seconds: Option<i64>,
) -> (r: Result<Vec<Period>, ThermalError>)
    requires
        since.wf(),
        until.wf(),
    ensures
        r is Ok <==> change_periods(rows_cells(rows@), *since, *until, baseline_active, min_duration_seconds) is Some,
        r matches Ok(ps) ==> ps@ == change_periods(rows_cells(rows@), *since, *until, baseline_active, min_duration_seconds).unwrap(),
        r matches Ok(ps) ==> periods_wf(ps@),
        r matches Err(e) ==> e is DateTimeParse,
{
    let ghost cells = rows_cells(rows@);
    let mut periods: Vec<Period> = Vec::new();
    let mut current_start: Option<Timestamp> = if baseline_active {
        Some(*since)
    } else {
        None
    };
    let mut i: usize = 0;
    while i < rows.len()
        invariant
            i <= rows.len(),
            cells == rows_cells(rows@),
            since.wf(),
            change_scan(cells.take(i as int), *since, baseline_active, min_duration_seconds)
                == Some((current_start, periods@)),
            current_start matches Some(s) ==> s.wf(),
            periods_wf(periods@),
        decreases rows.len() - i,
    {
        let row = &rows[i];
        proof {
            assert(cells.take(i + 1).drop_last() =~= cells.take(i as int));
            assert(cells.take(i + 1).last() == row@);
        }
        let ts_str = row.get("_time");
        let active_str = row.get("active");
        if ts_str.is_some() && active_str.is_some() {
            let ts_str = ts_str.unwrap();
            let active_str = active_str.unwrap();
            if ts_str.as_str().unicode_len() > 0 && active_str.as_str().unicode_len() > 0 {
                let ts = match parse_dt(ts_str.as_str()) {
                    Ok(t) => t,
                    Err(e) => {
                        proof {
                            lemma_scan_none_persists(cells, i + 1, *since, baseline_active, min_duration_seconds);
                        }
                        return Err(e);
                    },
                };
                let active: i32 = match parse_i32(active_str.as_str()) {
                    Some(v) => v,
                    None => 0,
                };
                if active > 0 {
                    if current_start.is_none() {
                        current_start = Some(ts);
                    }
                } else if active < 0 {
                    if let Some(start) = current_start {
                        current_start = None;
                        if keep_period(&start, &ts, min_duration_seconds) {
                            periods.push(Period { start, end: ts });
                        }
                    }
                }
            }
        }
        i = i + 1;
    }
    assert(cells.take(rows.len() as int) =~= cells);
    if let Some(start) = current_start {
        if keep_period(&start, until, min_duration_seconds) {
            periods.push(Period { start, end: *until });
        }
    }
    Ok(periods)
}

proof fn lemma_change_scan_long_enough(rows: Seq<CellsView>, since: Timestamp, baseline: bool, min: Option<i64>)
    ensures
        change_scan(rows, since, baseline, min) matches Some(st) ==> forall|i: int|
            0 <= i < st.1.len() ==> long_enough(#[trigger] st.1[i].start, st.1[i].end, min),
    decreases rows.len(),
{
    if rows.len() > 0 {
        lemma_change_scan_long_enough(rows.drop_last(), since, baseline, min);
    }
}

/// Every period recovered from state changes lasts at least the minimum duration, when one
/// is given.
pub proof fn lemma_change_periods_long_enough(
    rows: Seq<CellsView>,
    since: Timestamp,
    until: Timestamp,
    baseline: bool,
    min: Option<i64>,
)
    ensures
        change_periods(rows, since, until, baseline, min) matches Some(ps) ==> forall|i: int|
            0 <= i < ps.len() ==> long_enough(#[trigger] ps[i].start, ps[i].end, min),
{
    lemma_change_scan_long_enough(rows, since, baseline, min);
}

/// Whole seconds between two RFC 3339 (or PostgreSQL) times, truncated toward zero; 0 when
/// either cannot be read.
pub fn period_duration_seconds(start: &str, end: &str) -> (r: i64)
    ensures
        (parsed_dt(start@) is Some && parsed_dt(end@) is Some) ==> r == seconds_between(
            ts_of(parsed_dt(start@).unwrap()),
            ts_of(parsed_dt(end@).unwrap()),
        ),
        (parsed_dt(start@) is None || parsed_dt(end@) is None) ==> r == 0,
{
    let s = match parse_dt(start) {
        Ok(t) => t,
        Err(_) => {
            return 0;
        },
    };
    let e = match parse_dt(end) {
        Ok(t) => t,
        Err(_) => {
            return 0;
        },
    };
    seconds_between_exec(&s, &e)
}

} // verus!
