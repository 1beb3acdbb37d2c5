//! Heating-history decisions: controller mode changes, preheat detection, waking hours and
//! the window a report covers.
use vstd::prelude::*;

use crate::error::ThermalError;
use crate::flux::{lookup, FluxRow};
use crate::periods::Period;
use crate::text::{owned, str_eq};
use crate::time::{
    not_after, parse_dt, parsed_dt, rfc3339_text, valid_parts, Timestamp, MAX_EPOCH_SECS, MIN_EPOCH_SECS,
};

verus! {

/// First hour of the day counted as waking time.
pub const WAKING_START_HOUR: u32 = 7;

/// Hour of the day at which waking time ends.
pub const WAKING_END_HOUR: u32 = 23;

/// Step, in seconds, at which a period is sampled for waking time.
pub const WAKING_STEP_SECONDS: i64 = 300;

/// A text sample of a series, its time written in RFC 3339.
#[derive(Debug, Clone)]
pub struct StringPoint {
    pub ts: String,
    pub value: String,
}

/// A change of the heating controller's mode.
#[derive(Debug, Clone)]
pub struct ModeChange {
    pub ts: String,
    pub from: Option<String>,
    pub to: String,
}

/// The window a history report covers and when it was made.
#[derive(Debug, Clone)]
pub struct WindowSummary {
    pub since: String,
    pub until: String,
    pub generated_at: String,
}

/// The text columns of one controller decision row.
#[derive(Debug, Clone)]
pub struct ControllerRow {
    pub ts: Timestamp,
    pub mode: String,
    pub action: String,
    pub tariff: String,
}

/// RFC 3339 text of a timestamp.
pub open spec fn ts_text(t: Timestamp) -> Seq<char> {
    rfc3339_text(t.secs, t.nanos, t.offset)
}

pub open spec fn opt_text(o: Option<String>) -> Option<Seq<char>> {
    match o {
        Some(s) => Some(s@),
        None => None,
    }
}

/// Each sample as a point: the time as text and the value unchanged.
pub fn string_points_from_series(series: &[(Timestamp, String)]) -> (r: Vec<StringPoint>)
    requires
        forall|i: int| 0 <= i < series@.len() ==> (#[trigger] series@[i]).0.wf(),
    ensures
        r@.len() == series@.len(),
        forall|i: int|
            0 <= i < series@.len() ==> (#[trigger] r@[i]).ts@ == ts_text(series@[i].0)
                && r@[i].value@ == series@[i].1@,
{
    let mut out: Vec<StringPoint> = Vec::new();
    let mut i: usize = 0;
    while i < series.len()
        invariant
            i <= series@.len(),
            out@.len() == i,
            forall|j: int| 0 <= j < series@.len() ==> (#[trigger] series@[j]).0.wf(),
            forall|j: int|
                0 <= j < i ==> (#[trigger] out@[j]).ts@ == ts_text(series@[j].0) && out@[j].value@
                    == series@[j].1@,
        decreases series@.len() - i,
    {
        let pair = &series[i];
        let p = StringPoint { ts: pair.0.to_rfc3339(), value: owned(pair.1.as_str()) };
        out.push(p);
        i = i + 1;
    }
    out
}

/// The window `since`..`until`, generated at `generated_at`, as RFC 3339 text.
pub fn window_summary(since: &Timestamp, until: &Timestamp, generated_at: &Timestamp) -> (r: WindowSummary)
    requires
        since.wf(),
        until.wf(),
        generated_at.wf(),
    ensures
        r.since@ == ts_text(*since),
        r.until@ == ts_text(*until),
        r.generated_at@ == ts_text(*generated_at),
{
    WindowSummary {
        since: since.to_rfc3339(),
        until: until.to_rfc3339(),
        generated_at: generated_at.to_rfc3339(),
    }
}

/// Rows as (time, mode).
pub open spec fn modes_view(rows: Seq<ControllerRow>) -> Seq<(Timestamp, Seq<char>)> {
    rows.map_values(|r: ControllerRow| (r.ts, r.mode@))
}

/// The mode changes of a row sequence: a change at every row whose mode differs from the
/// mode last changed to, the first row included; each as (time, previous mode, new mode).
pub open spec fn mode_changes(rows: Seq<(Timestamp, Seq<char>)>) -> Seq<(Timestamp, Option<Seq<char>>, Seq<char>)>
    decreases rows.len(),
{
    if rows.len() == 0 {
        Seq::empty()
    } else {
        let prev = mode_changes(rows.drop_last());
        let last_mode = if prev.len() == 0 {
            None
        } else {
            Some(prev.last().2)
        };
        if last_mode == Some(rows.last().1) {
            prev
        } else {
            prev.push((rows.last().0, last_mode, rows.last().1))
        }
    }
}

pub open spec fn change_view(c: ModeChange) -> (Seq<char>, Option<Seq<char>>, Seq<char>) {
    (c.ts@, opt_text(c.from), c.to@)
}

pub open spec fn changes_text(cs: Seq<(Timestamp, Option<Seq<char>>, Seq<char>)>) -> Seq<(Seq<char>, Option<Seq<char>>, Seq<char>)> {
    cs.map_values(|c: (Timestamp, Option<Seq<char>>, Seq<char>)| (ts_text(c.0), c.1, c.2))
}

/// The controller's mode changes, in row order.
pub fn controller_mode_changes(rows: &[ControllerRow]) -> (r: Vec<ModeChange>)
    requires
        forall|i: int| 0 <= i < rows@.len() ==> (#[trigger] rows@[i]).ts.wf(),
    ensures
        r@.map_values(|c: ModeChange| change_view(c)) == changes_text(mode_changes(modes_view(rows@))),
{
    let mut out: Vec<ModeChange> = Vec::new();
    let mut last_mode: Option<String> = None;
    let mut i: usize = 0;
    while i < rows.len()
        invariant
            i <= rows@.len(),
            forall|j: int| 0 <= j < rows@.len() ==> (#[trigger] rows@[j]).ts.wf(),
            out@.map_values(|c: ModeChange| change_view(c)) == changes_text(
                mode_changes(modes_view(rows@.take(i as int))),
            ),
            opt_text(last_mode) == (if mode_changes(modes_view(rows@.take(i as int))).len() == 0 {
                None
            } else {
                Some(mode_changes(modes_view(rows@.take(i as int))).last().2)
            }),
        decreases rows@.len() - i,
    {
        let row = &rows[i];
        let ghost pre = modes_view(rows@.take(i as int));
        let ghost post = modes_view(rows@.take(i + 1));
        proof {
            assert(post.drop_last() =~= pre);
            assert(post.last() == (row.ts, row.mode@));
        }
        let same = match &last_mode {
            Some(m) => str_eq(m.as_str(), row.mode.as_str()),
            None => false,
        };
        if !same {
            let ghost old_out = out@;
            let ghost old_last = opt_text(last_mode);
            let change = ModeChange {
                ts: row.ts.to_rfc3339(),
                from: match &last_mode {
                    Some(m) => Some(owned(m.as_str())),
                    None => None,
                },
                to: owned(row.mode.as_str()),
            };
            out.push(change);
            last_mode = Some(owned(row.mode.as_str()));
            proof {
                let x = (row.ts, old_last, row.mode@);
                assert(mode_changes(post) == mode_changes(pre).push(x));
                assert(changes_text(mode_changes(post)) =~= changes_text(mode_changes(pre)).push(
                    (ts_text(row.ts), old_last, row.mode@),
                ));
                assert(out@ == old_out.push(out@.last()));
                assert(out@.map_values(|c: ModeChange| change_view(c)) =~= old_out.map_values(
                    |c: ModeChange| change_view(c),
                ).push(change_view(out@.last())));
            }
        } else {
            proof {
                assert(mode_changes(post) == mode_changes(pre));
            }
        }
        i = i + 1;
    }
    proof {
        assert(rows@.take(rows@.len() as int) =~= rows@);
    }
    out
}

/// Mode changes alternate: the first comes from no mode, each later one comes from the mode
/// the one before it changed to, and no change leads to the mode it comes from. After
/// any rows, the last change leads to the mode of the last row.
pub proof fn lemma_mode_changes_chain(rows: Seq<(Timestamp, Seq<char>)>)
    ensures
        mode_changes(rows).len() <= rows.len(),
        rows.len() > 0 ==> mode_changes(rows).len() > 0 && mode_changes(rows).last().2 == rows.last().1,
        mode_changes(rows).len() > 0 ==> mode_changes(rows)[0].1 is None,
        forall|i: int|
            0 < i < mode_changes(rows).len() ==> (#[trigger] mode_changes(rows)[i]).1 == Some(
                mode_changes(rows)[i - 1].2,
            ) && mode_changes(rows)[i].2 != mode_changes(rows)[i - 1].2,
    decreases rows.len(),
{
    if rows.len() > 0 {
        lemma_mode_changes_chain(rows.drop_last());
    }
}

/// Actions that start or hold an overnight preheat.
pub open spec fn is_preheat_action(a: Seq<char>) -> bool {
    a == "overnight_preheat"@ || a == "preheat_model"@ || a == "overnight_maintain"@
}

/// Index of the first row whose action starts or holds an overnight preheat.
pub fn likely_preheat_index(rows: &[ControllerRow]) -> (r: Option<usize>)
    ensures
        r matches Some(i) ==> i < rows@.len() && is_preheat_action(rows@[i as int].action@)
            && forall|j: int| 0 <= j < i ==> !is_preheat_action(#[trigger] rows@[j].action@),
        r is None ==> forall|j: int| 0 <= j < rows@.len() ==> !is_preheat_action(#[trigger] rows@[j].action@),
{
    let mut i: usize = 0;
    while i < rows.len()
        invariant
            i <= rows@.len(),
            forall|j: int| 0 <= j < i ==> !is_preheat_action(#[trigger] rows@[j].action@),
        decreases rows@.len() - i,
    {
        let a = rows[i].action.as_str();
        if str_eq(a, "overnight_preheat") || str_eq(a, "preheat_model") || str_eq(
            a,
            "overnight_maintain",
        ) {
            return Some(i);
        }
        i = i + 1;
    }
    None
}

/// `hour:minute` falls in waking hours, 07:00 up to but not including 23:00.
pub open spec fn waking_minute(m: int) -> bool {
    WAKING_START_HOUR * 60 <= m < WAKING_END_HOUR * 60
}

/// Whether a time of day is in waking hours.
pub fn is_waking_time(hour: u32, minute: u32) -> (r: bool)
    requires
        hour < 24,
        minute < 60,
    ensures
        r == waking_minute(hour * 60 + minute),
{
    let minutes = hour * 60 + minute;
    minutes >= WAKING_START_HOUR * 60 && minutes < WAKING_END_HOUR * 60
}

/// The local time of day at epoch second `secs` in UTC offset `offset` is in waking hours.
pub open spec fn waking_at(secs: int, offset: int) -> bool {
    waking_minute(((secs + offset) % 86_400) / 60)
}

/// The instant `k` steps of five minutes after `start` is before `end`.
pub open spec fn step_before(start: Timestamp, end: Timestamp, k: int) -> bool {
    let s = start.secs + WAKING_STEP_SECONDS * k;
    s < end.secs || (s == end.secs && start.nanos < end.nanos)
}

/// Some five-minute step from `start` that is still before `end` falls in waking hours
/// (local time in `start`'s offset).
pub open spec fn intersects_waking(start: Timestamp, end: Timestamp) -> bool {
    exists|k: int| 0 <= k && #[trigger] step_before(start, end, k) && waking_at(start.secs + WAKING_STEP_SECONDS * k, start.offset as int)
}

fn waking_at_exec(secs: i64, offset: i32) -> (r: bool)
    requires
        MIN_EPOCH_SECS - WAKING_STEP_SECONDS <= secs <= MAX_EPOCH_SECS + WAKING_STEP_SECONDS,
        -86_400 < offset < 86_400,
    ensures
        r == waking_at(secs as int, offset as int),
{
    let shifted: i64 = secs + offset as i64 + 8_640_000_000_000;
    let day_secs: i64 = shifted % 86_400;
    proof {
        vstd::arithmetic::div_mod::lemma_mod_multiples_vanish(
            100_000_000,
            secs + offset,
            86_400,
        );
        assert(86_400 * 100_000_000 == 8_640_000_000_000);
    }
    let minutes: i64 = day_secs / 60;
    minutes >= WAKING_START_HOUR as i64 * 60 && minutes < WAKING_END_HOUR as i64 * 60
}

/// Whether the period touches waking hours, sampled every five minutes from its start.
pub fn period_intersects_waking_hours(period: &Period) -> (r: bool)
    requires
        period.start.wf(),
        period.end.wf(),
    ensures
        r == intersects_waking(period.start, period.end),
{
    let start = period.start;
    let end = period.end;
    let mut cur: i64 = start.secs;
    let ghost mut k: int = 0;
    while cur < end.secs || (cur == end.secs && start.nanos < end.nanos)
        invariant
            start == period.start,
            end == period.end,
            start.wf(),
            end.wf(),
            0 <= k,
            cur == start.secs + WAKING_STEP_SECONDS * k,
            k == 0 || cur <= end.secs + WAKING_STEP_SECONDS,
            forall|j: int| 0 <= j < k ==> !(#[trigger] step_before(start, end, j) && waking_at(start.secs + WAKING_STEP_SECONDS * j, start.offset as int)),
        decreases end.secs + WAKING_STEP_SECONDS - cur,
    {
        assert(step_before(start, end, k));
        if waking_at_exec(cur, start.offset) {
            return true;
        }
        cur = cur + WAKING_STEP_SECONDS;
        proof {
            k = k + 1;
        }
    }
    proof {
        assert forall|j: int| 0 <= j implies !(#[trigger] step_before(start, end, j) && waking_at(start.secs + WAKING_STEP_SECONDS * j, start.offset as int)) by {
            if j >= k {
                assert(start.secs + WAKING_STEP_SECONDS * j >= cur);
            }
        }
    }
    false
}

/// `t` moved `seconds` earlier.
pub open spec fn earlier_by(t: Timestamp, seconds: int) -> Timestamp {
    Timestamp { secs: (t.secs - seconds) as i64, ..t }
}

/// The period ends within the last `seconds` before `until`, `until` included.
pub open spec fn recent_end(p: Period, until: Timestamp, seconds: int) -> bool {
    not_after(p.end, until) && not_after(earlier_by(until, seconds), p.end)
}

/// Whether the period ends within the last `seconds` before `until`, `until` included.
pub fn period_contains_recent_end(period: &Period, until: &Timestamp, seconds: i64) -> (r: bool)
    requires
        MIN_EPOCH_SECS <= until.secs - seconds <= MAX_EPOCH_SECS,
    ensures
        r == recent_end(*period, *until, seconds as int),
{
    let end = period.end;
    let from_secs: i64 = until.secs - seconds;
    let after_limit = end.secs > from_secs || (end.secs == from_secs && end.nanos >= until.nanos);
    let before_until = end.secs < until.secs || (end.secs == until.secs && end.nanos <= until.nanos);
    before_until && after_limit
}

/// The later of `since` and one hour before `until`; the hour-earlier instant where they are
/// the same instant.
pub open spec fn sampling_start(since: Timestamp, until: Timestamp) -> Timestamp {
    let h = earlier_by(until, 3600);
    if not_after(since, h) {
        h
    } else {
        since
    }
}

/// Where a report's sampling statistics start: the last hour of the window, or the whole
/// window when it is shorter.
pub fn sampling_window_start(since: &Timestamp, until: &Timestamp) -> (r: Timestamp)
    requires
        MIN_EPOCH_SECS + 3600 <= until.secs,
    ensures
        r == sampling_start(*since, *until),
{
    let h = Timestamp { secs: until.secs - 3600, nanos: until.nanos, offset: until.offset };
    if since.secs < h.secs || (since.secs == h.secs && since.nanos <= h.nanos) {
        h
    } else {
        *since
    }
}

/// The warning for a series with no data in the report window.
pub fn missing_warning(label: &str) -> (r: String)
    ensures
        r@ == label@ + " unavailable in this window"@,
{
    let mut s = owned(label);
    s.append(" unavailable in this window");
    s
}

/// Appends the warning for `label` when its series is missing.
pub fn add_missing_warning(warnings: &mut Vec<String>, label: &str, missing: bool)
    ensures
        missing ==> final(warnings)@.len() == old(warnings)@.len() + 1
            && final(warnings)@.take(old(warnings)@.len() as int) == old(warnings)@
            && final(warnings)@.last()@ == label@ + " unavailable in this window"@,
        !missing ==> final(warnings)@ == old(warnings)@,
{
    if missing {
        warnings.push(missing_warning(label));
        assert(warnings@.take(old(warnings)@.len() as int) =~= old(warnings)@);
    }
}

/// Number of neighbouring signs that differ.
pub open spec fn alternations(signs: Seq<i32>) -> nat
    decreases signs.len(),
{
    if signs.len() < 2 {
        0
    } else {
        alternations(signs.drop_last()) + if signs[signs.len() - 2] != signs.last() {
            1nat
        } else {
            0nat
        }
    }
}

/// The sawtooth verdict from the number of curve samples and the signs of their significant
/// steps: too few samples or steps give `(false, 0)`; otherwise the count of sign
/// alternations, and whether there are at least three.
pub open spec fn sawtooth(samples: int, signs: Seq<i32>) -> (bool, int) {
    if samples < 4 || signs.len() < 3 {
        (false, 0)
    } else {
        (alternations(signs) >= 3, alternations(signs) as int)
    }
}

/// Decides whether the heat curve saw-tooths: counts sign alternations of its significant
/// steps.
pub fn sawtooth_from_signs(samples: usize, signs: &[i32]) -> (r: (bool, usize))
    ensures
        (r.0, r.1 as int) == sawtooth(samples as int, signs@),
{
    if samples < 4 || signs.len() < 3 {
        return (false, 0);
    }
    let mut count: usize = 0;
    let mut i: usize = 1;
    while i < signs.len()
        invariant
            1 <= i <= signs@.len(),
            count == alternations(signs@.take(i as int)),
            count < i,
        decreases signs@.len() - i,
    {
        proof {
            let t = signs@.take(i + 1);
            assert(t.drop_last() =~= signs@.take(i as int));
        }
        if signs[i - 1] != signs[i] {
            count = count + 1;
        }
        i = i + 1;
    }
    assert(signs@.take(signs@.len() as int) =~= signs@);
    (count >= 3, count)
}

/// A sequence of `n` signs alternates at most `n - 1` times.
pub proof fn lemma_alternations_bound(signs: Seq<i32>)
    ensures
        signs.len() > 0 ==> alternations(signs) < signs.len(),
        signs.len() == 0 ==> alternations(signs) == 0,
    decreases signs.len(),
{
    if signs.len() >= 2 {
        lemma_alternations_bound(signs.drop_last());
    }
}

/// The text of column `k`, or `unknown` where the row has none.
pub open spec fn cell_or_unknown(cells: Seq<(Seq<char>, Seq<char>)>, k: Seq<char>) -> Seq<char> {
    match lookup(cells, k) {
        Some(v) => v,
        None => "unknown"@,
    }
}

/// A controller row's time cell is absent, empty or a repeated header.
pub open spec fn skipped_time(cells: Seq<(Seq<char>, Seq<char>)>) -> bool {
    match lookup(cells, "_time"@) {
        Some(t) => t.len() == 0 || t == "_time"@,
        None => true,
    }
}

fn text_or_unknown(row: &FluxRow, key: &str) -> (r: String)
    ensures
        r@ == cell_or_unknown(row@, key@),
{
    match row.get(key) {
        Some(v) => owned(v.as_str()),
        None => owned("unknown"),
    }
}

/// Reads the text columns of a controller decision row. Rows without a usable time are
/// skipped (`None`); a time that cannot be read is an error.
pub fn controller_row_from_cells(row: &FluxRow) -> (r: Result<Option<ControllerRow>, ThermalError>)
    ensures
        skipped_time(row@) ==> (r matches Ok(None)),
        !skipped_time(row@) && parsed_dt(lookup(row@, "_time"@).unwrap()) is None ==> (r matches Err(
            ThermalError::DateTimeParse { value, .. },
        ) && value@ == lookup(row@, "_time"@).unwrap()),
        !skipped_time(row@) && parsed_dt(lookup(row@, "_time"@).unwrap()) is Some ==> (r matches Ok(
            Some(c),
        ) && Some((c.ts.secs, c.ts.nanos, c.ts.offset)) == parsed_dt(lookup(row@, "_time"@).unwrap())
            && c.ts.wf() && c.mode@ == cell_or_unknown(row@, "mode"@) && c.action@ == cell_or_unknown(
            row@,
            "action"@,
        ) && c.tariff@ == cell_or_unknown(row@, "tariff"@)),
{
    let ts_str = match row.get("_time") {
        Some(t) => t,
        None => {
            return Ok(None);
        },
    };
    if ts_str.as_str().unicode_len() == 0 || str_eq(ts_str.as_str(), "_time") {
        return Ok(None);
    }
    let ts = match parse_dt(ts_str.as_str()) {
        Ok(t) => t,
        Err(e) => {
            return Err(e);
        },
    };
    Ok(
        Some(
            ControllerRow {
                ts,
                mode: text_or_unknown(row, "mode"),
                action: text_or_unknown(row, "action"),
                tariff: text_or_unknown(row, "tariff"),
            },
        ),
    )
}

} // verus!
