//! Hot-water charge summaries: the batched queries that read each charge's temperatures and
//! boundary values, and the verdicts drawn from the charges of a window.
use vstd::prelude::*;

use crate::heating::{earlier_by, ts_text};
use crate::periods::Period;
use crate::text::{owned, str_eq};
use crate::time::{Timestamp, MAX_EPOCH_SECS, MIN_EPOCH_SECS};

verus! {

/// Seconds before a charge starts in which its starting values are looked for.
pub const BOUNDARY_LOOKBACK_SECONDS: i64 = 900;

/// Seconds after a charge ends in which its final values are looked for.
pub const BOUNDARY_LOOKAHEAD_SECONDS: i64 = 900;

/// The decimal digit for `d` below ten.
pub open spec fn digit_char(d: nat) -> char {
    if d == 0 {
        '0'
    } else if d == 1 {
        '1'
    } else if d == 2 {
        '2'
    } else if d == 3 {
        '3'
    } else if d == 4 {
        '4'
    } else if d == 5 {
        '5'
    } else if d == 6 {
        '6'
    } else if d == 7 {
        '7'
    } else if d == 8 {
        '8'
    } else {
        '9'
    }
}

/// Decimal text of `n`, without leading zeros.
pub open spec fn decimal(n: nat) -> Seq<char>
    decreases n,
{
    if n < 10 {
        seq![digit_char(n)]
    } else {
        decimal(n / 10).push(digit_char(n % 10))
    }
}

fn digit_str(d: usize) -> (r: &'static str)
    requires
        d < 10,
    ensures
        r@ == seq![digit_char(d as nat)],
{
    proof {
        reveal_strlit("0");
        reveal_strlit("1");
        reveal_strlit("2");
        reveal_strlit("3");
        reveal_strlit("4");
        reveal_strlit("5");
        reveal_strlit("6");
        reveal_strlit("7");
        reveal_strlit("8");
        reveal_strlit("9");
    }
    let r = if d == 0 {
        "0"
    } else if d == 1 {
        "1"
    } else if d == 2 {
        "2"
    } else if d == 3 {
        "3"
    } else if d == 4 {
        "4"
    } else if d == 5 {
        "5"
    } else if d == 6 {
        "6"
    } else if d == 7 {
        "7"
    } else if d == 8 {
        "8"
    } else {
        "9"
    };
    assert(r@ =~= seq![digit_char(d as nat)]);
    r
}

/// Decimal text of an index.
pub fn usize_text(n: usize) -> (r: String)
    ensures
        r@ == decimal(n as nat),
    decreases n,
{
    if n < 10 {
        owned(digit_str(n))
    } else {
        let mut s = usize_text(n / 10);
        s.append(digit_str(n % 10));
        s
    }
}

/// `charge_{idx}{suffix}`: the name under which a charge's values are queried.
pub open spec fn charge_name(idx: nat, suffix: Seq<char>) -> Seq<char> {
    "charge_"@ + decimal(idx) + suffix
}

/// The name of charge `idx` followed by `suffix`.
pub fn charge_key(idx: usize, suffix: &str) -> (r: String)
    ensures
        r@ == charge_name(idx as nat, suffix@),
{
    let mut s = owned("charge_");
    s.append(usize_text(idx).as_str());
    s.append(suffix);
    s
}

pub open spec fn t1_filter() -> Seq<char> {
    "r._measurement == \"emon\" and r.field == \"dhw_t1\""@
}

pub open spec fn hwc_filter() -> Seq<char> {
    "r._measurement == \"ebusd_poll\" and r.field == \"HwcStorageTemp\""@
}

pub open spec fn remaining_filter() -> Seq<char> {
    "r._measurement == \"dhw\" and r._field == \"remaining_litres\""@
}

pub open spec fn sfmode_filter() -> Seq<char> {
    "r._measurement == \"ebusd_poll\" and r.field == \"HwcSFMode\""@
}

/// A series' raw samples between two instants, one line of Flux.
pub open spec fn window_query(bucket: Seq<char>, start: Timestamp, stop: Timestamp, filter: Seq<char>) -> Seq<char> {
    "from(bucket: \""@ + bucket + "\") |> range(start: "@ + ts_text(start) + ", stop: "@ + ts_text(stop)
        + ") |> filter(fn: (r) => "@ + filter + ") |> keep(columns: [\"_time\", \"_value\"])"@
}

/// One series' raw samples between two instants, as a one-line Flux query.
pub fn window_query_flux(bucket: &str, start: &Timestamp, stop: &Timestamp, filter: &str) -> (r: String)
    requires
        start.wf(),
        stop.wf(),
    ensures
        r@ == window_query(bucket@, *start, *stop, filter@),
{
    let mut s = owned("from(bucket: \"");
    s.append(bucket);
    s.append("\") |> range(start: ");
    s.append(start.to_rfc3339().as_str());
    s.append(", stop: ");
    s.append(stop.to_rfc3339().as_str());
    s.append(") |> filter(fn: (r) => ");
    s.append(filter);
    s.append(") |> keep(columns: [\"_time\", \"_value\"])");
    s
}

/// `t` moved `seconds` later.
pub open spec fn later_by(t: Timestamp, seconds: int) -> Timestamp {
    Timestamp { secs: (t.secs + seconds) as i64, ..t }
}

/// Charges whose boundary windows stay within the instants this library represents.
pub open spec fn charges_in_range(periods: Seq<Period>) -> bool {
    forall|i: int|
        0 <= i < periods.len() ==> (#[trigger] periods[i]).start.wf() && periods[i].end.wf()
            && MIN_EPOCH_SECS + BOUNDARY_LOOKBACK_SECONDS <= periods[i].start.secs
            && periods[i].end.secs + BOUNDARY_LOOKAHEAD_SECONDS <= MAX_EPOCH_SECS
}

pub type SummarySpecText = (Seq<char>, Seq<char>, Seq<char>);

/// The two per-charge summary queries: T1 and storage temperature during the charge.
pub open spec fn charge_summary_pair(bucket: Seq<char>, idx: nat, p: Period) -> Seq<SummarySpecText> {
    seq![
        (charge_name(idx, "_t1"@), charge_name(idx, "_t1"@), window_query(bucket, p.start, p.end, t1_filter())),
        (charge_name(idx, "_hwc"@), charge_name(idx, "_hwc"@), window_query(bucket, p.start, p.end, hwc_filter())),
    ]
}

/// Summary queries of the first charges, in order.
pub open spec fn charge_summary_specs_text(bucket: Seq<char>, periods: Seq<Period>) -> Seq<SummarySpecText>
    decreases periods.len(),
{
    if periods.len() == 0 {
        Seq::empty()
    } else {
        charge_summary_specs_text(bucket, periods.drop_last()) + charge_summary_pair(
            bucket,
            (periods.len() - 1) as nat,
            periods.last(),
        )
    }
}

pub open spec fn triple_text(t: (String, String, String)) -> SummarySpecText {
    (t.0@, t.1@, t.2@)
}

fn summary_spec(var: String, base: String) -> (r: (String, String, String))
    ensures
        triple_text(r) == (var@, var@, base@),
{
    let label = owned(var.as_str());
    (var, label, base)
}

/// (variable, label, query) for every charge's T1 and storage-temperature summaries, to be
/// batched into one script.
pub fn charge_summary_specs(bucket: &str, periods: &[Period]) -> (r: Vec<(String, String, String)>)
    requires
        charges_in_range(periods@),
    ensures
        r@.map_values(|t: (String, String, String)| triple_text(t)) == charge_summary_specs_text(
            bucket@,
            periods@,
        ),
{
    let mut out: Vec<(String, String, String)> = Vec::new();
    let mut i: usize = 0;
    while i < periods.len()
        invariant
            i <= periods@.len(),
            charges_in_range(periods@),
            out@.map_values(|t: (String, String, String)| triple_text(t))
                == charge_summary_specs_text(bucket@, periods@.take(i as int)),
        decreases periods@.len() - i,
    {
        let p = &periods[i];
        let ghost before = out@.map_values(|t: (String, String, String)| triple_text(t));
        out.push(summary_spec(charge_key(i, "_t1"), window_query_flux(bucket, &p.start, &p.end, "r._measurement == \"emon\" and r.field == \"dhw_t1\"")));
        out.push(summary_spec(charge_key(i, "_hwc"), window_query_flux(bucket, &p.start, &p.end, "r._measurement == \"ebusd_poll\" and r.field == \"HwcStorageTemp\"")));
        proof {
            assert(periods@.take(i + 1).drop_last() =~= periods@.take(i as int));
            assert(periods@.take(i + 1).last() == *p);
            assert(out@.map_values(|t: (String, String, String)| triple_text(t)) =~= before
                + charge_summary_pair(bucket@, i as nat, *p));
        }
        i = i + 1;
    }
    assert(periods@.take(periods@.len() as int) =~= periods@);
    out
}

pub type SelectorSpecText = (Seq<char>, Seq<char>, Seq<char>, Seq<char>, Seq<char>);

/// A boundary value of charge `idx`: the last sample before `start`'s lookback window
/// ends, or the first after its end.
pub open spec fn boundary(
    bucket: Seq<char>,
    idx: nat,
    name: Seq<char>,
    filter: Seq<char>,
    from: Timestamp,
    to: Timestamp,
    op: Seq<char>,
) -> SelectorSpecText {
    (charge_name(idx, "_"@ + name), charge_name(idx, ""@), name, window_query(bucket, from, to, filter), op)
}

/// The six numeric boundary queries of one charge: T1, storage temperature and remaining
/// litres, each the last value in the quarter hour before the charge and the first value in
/// the quarter hour after it.
pub open spec fn numeric_boundary_six(bucket: Seq<char>, idx: nat, p: Period) -> Seq<SelectorSpecText> {
    let before = earlier_by(p.start, BOUNDARY_LOOKBACK_SECONDS as int);
    let after = later_by(p.end, BOUNDARY_LOOKAHEAD_SECONDS as int);
    seq![
        boundary(bucket, idx, "t1_start"@, t1_filter(), before, p.start, "last()"@),
        boundary(bucket, idx, "t1_end"@, t1_filter(), p.end, after, "first()"@),
        boundary(bucket, idx, "hwc_start"@, hwc_filter(), before, p.start, "last()"@),
        boundary(bucket, idx, "hwc_end"@, hwc_filter(), p.end, after, "first()"@),
        boundary(bucket, idx, "remaining_start"@, remaining_filter(), before, p.start, "last()"@),
        boundary(bucket, idx, "remaining_end"@, remaining_filter(), p.end, after, "first()"@),
    ]
}

/// The two text boundary queries of one charge: the hot-water mode before and after.
pub open spec fn string_boundary_two(bucket: Seq<char>, idx: nat, p: Period) -> Seq<SelectorSpecText> {
    let before = earlier_by(p.start, BOUNDARY_LOOKBACK_SECONDS as int);
    let after = later_by(p.end, BOUNDARY_LOOKAHEAD_SECONDS as int);
    seq![
        boundary(bucket, idx, "sfmode_start"@, sfmode_filter(), before, p.start, "last()"@),
        boundary(bucket, idx, "sfmode_end"@, sfmode_filter(), p.end, after, "first()"@),
    ]
}

/// Boundary queries of the first charges, numeric or text ones, in order.
pub open spec fn boundary_specs_text(bucket: Seq<char>, periods: Seq<Period>, numeric: bool) -> Seq<SelectorSpecText>
    decreases periods.len(),
{
    if periods.len() == 0 {
        Seq::empty()
    } else {
        let idx = (periods.len() - 1) as nat;
        boundary_specs_text(bucket, periods.drop_last(), numeric) + if numeric {
            numeric_boundary_six(bucket, idx, periods.last())
        } else {
            string_boundary_two(bucket, idx, periods.last())
        }
    }
}

pub open spec fn quint_text(t: (String, String, String, String, String)) -> SelectorSpecText {
    (t.0@, t.1@, t.2@, t.3@, t.4@)
}

fn boundary_exec(
    bucket: &str,
    idx: usize,
    name: &str,
    filter: &str,
    from: &Timestamp,
    to: &Timestamp,
    op: &str,
) -> (r: (String, String, String, String, String))
    requires
        from.wf(),
        to.wf(),
    ensures
        quint_text(r) == boundary(bucket@, idx as nat, name@, filter@, *from, *to, op@),
{
    let mut suffix = owned("_");
    suffix.append(name);
    (
        charge_key(idx, suffix.as_str()),
        charge_key(idx, ""),
        owned(name),
        window_query_flux(bucket, from, to, filter),
        owned(op),
    )
}

/// (variable, series, metric, query, selector) for every charge's boundary values, numeric
/// ones (T1, storage temperature, remaining litres) or text ones (hot-water mode), to be
/// batched into one script.
pub fn charge_boundary_specs(bucket: &str, periods: &[Period], numeric: bool) -> (r: Vec<(String, String, String, String, String)>)
    requires
        charges_in_range(periods@),
    ensures
        r@.map_values(|t: (String, String, String, String, String)| quint_text(t))
            == boundary_specs_text(bucket@, periods@, numeric),
{
    let mut out: Vec<(String, String, String, String, String)> = Vec::new();
    let mut i: usize = 0;
    while i < periods.len()
        invariant
            i <= periods@.len(),
            charges_in_range(periods@),
            out@.map_values(|t: (String, String, String, String, String)| quint_text(t))
                == boundary_specs_text(bucket@, periods@.take(i as int), numeric),
        decreases periods@.len() - i,
    {
        let p = &periods[i];
        assert(charges_in_range(periods@) ==> periods@[i as int].start.wf());
        let before = Timestamp {
            secs: p.start.secs - BOUNDARY_LOOKBACK_SECONDS,
            nanos: p.start.nanos,
            offset: p.start.offset,
        };
        let after = Timestamp {
            secs: p.end.secs + BOUNDARY_LOOKAHEAD_SECONDS,
            nanos: p.end.nanos,
            offset: p.end.offset,
        };
        proof {
            assert(p.start.secs % 60 == 59 <==> before.secs % 60 == 59);
            assert(p.end.secs % 60 == 59 <==> after.secs % 60 == 59);
        }
        let ghost old_view = out@.map_values(|t: (String, String, String, String, String)| quint_text(t));
        if numeric {
            let t1 = "r._measurement == \"emon\" and r.field == \"dhw_t1\"";
            let hwc = "r._measurement == \"ebusd_poll\" and r.field == \"HwcStorageTemp\"";
            let rem = "r._measurement == \"dhw\" and r._field == \"remaining_litres\"";
            out.push(boundary_exec(bucket, i, "t1_start", t1, &before, &p.start, "last()"));
            out.push(boundary_exec(bucket, i, "t1_end", t1, &p.end, &after, "first()"));
            out.push(boundary_exec(bucket, i, "hwc_start", hwc, &before, &p.start, "last()"));
            out.push(boundary_exec(bucket, i, "hwc_end", hwc, &p.end, &after, "first()"));
            out.push(boundary_exec(bucket, i, "remaining_start", rem, &before, &p.start, "last()"));
            out.push(boundary_exec(bucket, i, "remaining_end", rem, &p.end, &after, "first()"));
        } else {
            let sf = "r._measurement == \"ebusd_poll\" and r.field == \"HwcSFMode\"";
            out.push(boundary_exec(bucket, i, "sfmode_start", sf, &before, &p.start, "last()"));
            out.push(boundary_exec(bucket, i, "sfmode_end", sf, &p.end, &after, "first()"));
        }
        proof {
            assert(periods@.take(i + 1).drop_last() =~= periods@.take(i as int));
            assert(periods@.take(i + 1).last() == *p);
            assert(before == earlier_by(p.start, BOUNDARY_LOOKBACK_SECONDS as int));
            assert(after == later_by(p.end, BOUNDARY_LOOKAHEAD_SECONDS as int));
            if numeric {
                assert(out@.map_values(|t: (String, String, String, String, String)| quint_text(t))
                    =~= old_view + numeric_boundary_six(bucket@, i as nat, *p));
            } else {
                assert(out@.map_values(|t: (String, String, String, String, String)| quint_text(t))
                    =~= old_view + string_boundary_two(bucket@, i as nat, *p));
            }
        }
        i = i + 1;
    }
    assert(periods@.take(periods@.len() as int) =~= periods@);
    out
}

/// The hot-water mode reads `load` although no charge ended in the last ten minutes.
pub open spec fn load_stuck(
    latest_sfmode: Option<Seq<char>>,
    periods: Seq<Period>,
    until: Timestamp,
) -> bool {
    latest_sfmode == Some("load"@) && !exists|i: int|
        0 <= i < periods.len() && #[trigger] crate::heating::recent_end(periods[i], until, 600)
}

/// Whether the hot-water mode looks stuck on `load`.
pub fn hwc_sfmode_load_stuck(latest_sfmode: Option<&str>, charge_periods: &[Period], until: &Timestamp) -> (r: bool)
    requires
        until.wf(),
        MIN_EPOCH_SECS + 600 <= until.secs,
    ensures
        r == load_stuck(
            match latest_sfmode {
                Some(s) => Some(s@),
                None => None,
            },
            charge_periods@,
            *until,
        ),
{
    let is_load = match latest_sfmode {
        Some(s) => str_eq(s, "load"),
        None => false,
    };
    if !is_load {
        return false;
    }
    let mut i: usize = 0;
    while i < charge_periods.len()
        invariant
            i <= charge_periods@.len(),
            until.wf(),
            MIN_EPOCH_SECS + 600 <= until.secs,
            forall|j: int| 0 <= j < i ==> !#[trigger] crate::heating::recent_end(charge_periods@[j], *until, 600),
        decreases charge_periods@.len() - i,
    {
        if crate::heating::period_contains_recent_end(&charge_periods[i], until, 600) {
            return false;
        }
        i = i + 1;
    }
    true
}

/// No charge of the window reached crossover, though there were charges.
pub open spec fn no_crossover_of(crossovers: Seq<Option<bool>>) -> bool {
    crossovers.len() > 0 && forall|i: int| 0 <= i < crossovers.len() ==> crossovers[i] != Some(true)
}

/// Whether the window's charges all failed to cross over (unknown counts as not crossed).
pub fn no_crossover(crossovers: &[Option<bool>]) -> (r: bool)
    ensures
        r == no_crossover_of(crossovers@),
{
    if crossovers.len() == 0 {
        return false;
    }
    let mut i: usize = 0;
    while i < crossovers.len()
        invariant
            i <= crossovers@.len(),
            forall|j: int| 0 <= j < i ==> crossovers@[j] != Some(true),
        decreases crossovers@.len() - i,
    {
        match crossovers[i] {
            Some(true) => {
                return false;
            },
            _ => {},
        }
        i = i + 1;
    }
    true
}

} // verus!
