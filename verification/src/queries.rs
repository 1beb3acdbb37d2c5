//! The compact history queries: filters of the series they read, the batched summary
//! inputs, the threshold-crossing scripts, and the first usable values of their results.
use vstd::prelude::*;

use crate::charges::{decimal, usize_text, window_query, window_query_flux};
use crate::error::ThermalError;
use crate::flux::{lookup, FluxRow};
use crate::heating::ts_text;
use crate::history::usable_value;
use crate::periods::rows_cells;
use crate::text::{owned, str_eq};
use crate::time::{parse_dt, parsed_dt, ts_of, Timestamp};

verus! {

/// Readings of an MQTT topic under one field.
pub open spec fn topic_filter_text(topic: Seq<char>, field: Seq<char>) -> Seq<char> {
    "r.topic == \""@ + topic + "\" and r._field == \""@ + field + "\""@
}

/// Readings of a measurement whose field tag names the series.
pub open spec fn measurement_filter_text(measurement: Seq<char>, field: Seq<char>) -> Seq<char> {
    "r._measurement == \""@ + measurement + "\" and r.field == \""@ + field + "\""@
}

/// Readings of a measurement stored under a plain `_field`.
pub open spec fn plain_measurement_filter_text(measurement: Seq<char>, field: Seq<char>) -> Seq<char> {
    "r._measurement == \""@ + measurement + "\" and r._field == \""@ + field + "\""@
}

/// The filter selecting a topic's readings.
pub fn topic_filter(topic: &str, field: &str) -> (r: String)
    ensures
        r@ == topic_filter_text(topic@, field@),
{
    let mut s = owned("r.topic == \"");
    s.append(topic);
    s.append("\" and r._field == \"");
    s.append(field);
    s.append("\"");
    s
}

/// The filter selecting a measurement series by its field tag.
pub fn measurement_filter(measurement: &str, field: &str) -> (r: String)
    ensures
        r@ == measurement_filter_text(measurement@, field@),
{
    let mut s = owned("r._measurement == \"");
    s.append(measurement);
    s.append("\" and r.field == \"");
    s.append(field);
    s.append("\"");
    s
}

/// The filter selecting a measurement series by its `_field`.
pub fn plain_measurement_filter(measurement: &str, field: &str) -> (r: String)
    ensures
        r@ == plain_measurement_filter_text(measurement@, field@),
{
    let mut s = owned("r._measurement == \"");
    s.append(measurement);
    s.append("\" and r._field == \"");
    s.append(field);
    s.append("\"");
    s
}

/// The last sample of a series in the window.
pub fn last_value_flux(bucket: &str, since: &Timestamp, until: &Timestamp, filter: &str) -> (r: String)
    requires
        since.wf(),
        until.wf(),
    ensures
        r@ == window_query(bucket@, *since, *until, filter@) + " |> last()"@,
{
    let mut s = window_query_flux(bucket, since, until, filter);
    s.append(" |> last()");
    s
}

/// `{kind}_base_{idx}`: the variable of the `idx`-th series of one kind.
pub open spec fn base_var(kind: Seq<char>, idx: nat) -> Seq<char> {
    kind + "_base_"@ + decimal(idx)
}

/// The summary inputs for labelled series: (variable, label, query) each.
pub open spec fn summary_inputs_text(
    kind: Seq<char>,
    series: Seq<(Seq<char>, Seq<char>)>,
    bucket: Seq<char>,
    since: Timestamp,
    until: Timestamp,
) -> Seq<(Seq<char>, Seq<char>, Seq<char>)> {
    Seq::new(
        series.len(),
        |i: int| (base_var(kind, i as nat), series[i].0, window_query(bucket, since, until, series[i].1)),
    )
}

pub open spec fn pair_text(p: (String, String)) -> (Seq<char>, Seq<char>) {
    (p.0@, p.1@)
}

/// The (variable, label, query) inputs of a batched summary script, one per (label,
/// filter) pair, numbered in order.
pub fn summary_inputs(
    kind: &str,
    series: &[(String, String)],
    bucket: &str,
    since: &Timestamp,
    until: &Timestamp,
) -> (r: Vec<(String, String, String)>)
    requires
        since.wf(),
        until.wf(),
    ensures
        r@.map_values(|t: (String, String, String)| (t.0@, t.1@, t.2@)) == summary_inputs_text(
            kind@,
            series@.map_values(|p: (String, String)| pair_text(p)),
            bucket@,
            *since,
            *until,
        ),
{
    let ghost sv = series@.map_values(|p: (String, String)| pair_text(p));
    let mut out: Vec<(String, String, String)> = Vec::new();
    let mut i: usize = 0;
    while i < series.len()
        invariant
            i <= series@.len(),
            since.wf(),
            until.wf(),
            sv == series@.map_values(|p: (String, String)| pair_text(p)),
            out@.len() == i,
            forall|j: int|
                0 <= j < i ==> (#[trigger] out@[j]).0@ == base_var(kind@, j as nat) && out@[j].1@
                    == sv[j].0 && out@[j].2@ == window_query(bucket@, *since, *until, sv[j].1),
        decreases series@.len() - i,
    {
        let (label, filter) = &series[i];
        let mut var = owned(kind);
        var.append("_base_");
        var.append(usize_text(i).as_str());
        out.push((var, owned(label.as_str()), window_query_flux(bucket, since, until, filter.as_str())));
        i = i + 1;
    }
    assert(out@.map_values(|t: (String, String, String)| (t.0@, t.1@, t.2@)) =~= summary_inputs_text(
        kind@,
        sv,
        bucket@,
        *since,
        *until,
    ));
    out
}

/// The script marking where a topic's readings go below and come back above a threshold
/// (written as Flux text): +1 where a period below starts, -1 where it ends.
pub open spec fn below_threshold_text(
    bucket: Seq<char>,
    since: Timestamp,
    until: Timestamp,
    topic: Seq<char>,
    field: Seq<char>,
    threshold: Seq<char>,
) -> Seq<char> {
    "from(bucket: \""@ + bucket + "\") |> range(start: "@ + ts_text(since) + ", stop: "@ + ts_text(until)
        + ") |> filter(fn: (r) => r.topic == \""@ + topic + "\" and r._field == \""@ + field
        + "\") |> keep(columns:[\"_time\",\"_value\"]) |> map(fn: (r) => ({ r with active: if r._value < "@
        + threshold
        + " then 1 else 0 })) |> difference(columns:[\"active\"], keepFirst:false) |> filter(fn:(r) => r.active != 0) |> keep(columns:[\"_time\",\"active\"])"@
}

/// The state-change script for periods in which a topic reads below a threshold.
pub fn below_threshold_flux(
    bucket: &str,
    since: &Timestamp,
    until: &Timestamp,
    topic: &str,
    field: &str,
    threshold: &str,
) -> (r: String)
    requires
        since.wf(),
        until.wf(),
    ensures
        r@ == below_threshold_text(bucket@, *since, *until, topic@, field@, threshold@),
{
    let mut s = owned("from(bucket: \"");
    s.append(bucket);
    s.append("\") |> range(start: ");
    s.append(since.to_rfc3339().as_str());
    s.append(", stop: ");
    s.append(until.to_rfc3339().as_str());
    s.append(") |> filter(fn: (r) => r.topic == \"");
    s.append(topic);
    s.append("\" and r._field == \"");
    s.append(field);
    s.append("\") |> keep(columns:[\"_time\",\"_value\"]) |> map(fn: (r) => ({ r with active: if r._value < ");
    s.append(threshold);
    s.append(" then 1 else 0 })) |> difference(columns:[\"active\"], keepFirst:false) |> filter(fn:(r) => r.active != 0) |> keep(columns:[\"_time\",\"active\"])");
    s
}

/// Whatever the bucket, window, topic and field, the below-threshold script marks readings
/// under the threshold as active, takes the changes of that mark, and keeps both directions
/// of change (+1 where a period below starts, -1 where it ends).
pub proof fn lemma_below_threshold_keeps_both_changes(
    bucket: Seq<char>,
    since: Timestamp,
    until: Timestamp,
    topic: Seq<char>,
    field: Seq<char>,
    threshold: Seq<char>,
)
    ensures
        crate::text::ends_with(
            below_threshold_text(bucket, since, until, topic, field, threshold),
            "({ r with active: if r._value < "@ + threshold
                + " then 1 else 0 })) |> difference(columns:[\"active\"], keepFirst:false) |> filter(fn:(r) => r.active != 0) |> keep(columns:[\"_time\",\"active\"])"@,
        ),
{
    let text = below_threshold_text(bucket, since, until, topic, field, threshold);
    let tail = "({ r with active: if r._value < "@ + threshold
        + " then 1 else 0 })) |> difference(columns:[\"active\"], keepFirst:false) |> filter(fn:(r) => r.active != 0) |> keep(columns:[\"_time\",\"active\"])"@;
    let piece = "\") |> keep(columns:[\"_time\",\"_value\"]) |> map(fn: (r) => ({ r with active: if r._value < "@;
    let lead = "\") |> keep(columns:[\"_time\",\"_value\"]) |> map(fn: (r) => "@;
    reveal_strlit("\") |> keep(columns:[\"_time\",\"_value\"]) |> map(fn: (r) => ({ r with active: if r._value < ");
    reveal_strlit("\") |> keep(columns:[\"_time\",\"_value\"]) |> map(fn: (r) => ");
    reveal_strlit("({ r with active: if r._value < ");
    assert(piece =~= lead + "({ r with active: if r._value < "@);
    let head = "from(bucket: \""@ + bucket + "\") |> range(start: "@ + ts_text(since) + ", stop: "@ + ts_text(until)
        + ") |> filter(fn: (r) => r.topic == \""@ + topic + "\" and r._field == \""@ + field + lead;
    assert(text =~= head + tail);
    assert(text.subrange(text.len() - tail.len(), text.len() as int) =~= tail);
}

/// Whatever the bucket, window, measurement, field and aggregation window, the
/// above-threshold script marks last values at or over the threshold as active and keeps
/// both directions of change.
pub proof fn lemma_above_threshold_keeps_both_changes(
    bucket: Seq<char>,
    since: Timestamp,
    until: Timestamp,
    measurement: Seq<char>,
    field: Seq<char>,
    every: Seq<char>,
    threshold: Seq<char>,
)
    ensures
        crate::text::ends_with(
            above_threshold_text(bucket, since, until, measurement, field, every, threshold),
            "({ r with active: if r._value >= "@ + threshold
                + " then 1 else 0 })) |> difference(columns:[\"active\"], keepFirst:false) |> filter(fn:(r) => r.active != 0) |> keep(columns:[\"_time\",\"active\"])"@,
        ),
{
    let text = above_threshold_text(bucket, since, until, measurement, field, every, threshold);
    let tail = "({ r with active: if r._value >= "@ + threshold
        + " then 1 else 0 })) |> difference(columns:[\"active\"], keepFirst:false) |> filter(fn:(r) => r.active != 0) |> keep(columns:[\"_time\",\"active\"])"@;
    let piece = ", fn: last, createEmpty: false) |> map(fn: (r) => ({ r with active: if r._value >= "@;
    let lead = ", fn: last, createEmpty: false) |> map(fn: (r) => "@;
    reveal_strlit(", fn: last, createEmpty: false) |> map(fn: (r) => ({ r with active: if r._value >= ");
    reveal_strlit(", fn: last, createEmpty: false) |> map(fn: (r) => ");
    reveal_strlit("({ r with active: if r._value >= ");
    assert(piece =~= lead + "({ r with active: if r._value >= "@);
    let head = "from(bucket: \""@ + bucket + "\") |> range(start: "@ + ts_text(since) + ", stop: "@ + ts_text(until)
        + ") |> filter(fn: (r) => r._measurement == \""@ + measurement + "\" and r.field == \""@ + field
        + "\") |> aggregateWindow(every: "@ + every + lead;
    assert(text =~= head + tail);
    assert(text.subrange(text.len() - tail.len(), text.len() as int) =~= tail);
}

/// The script marking where a measurement's last value per window reaches a threshold and
/// falls back below it.
pub open spec fn above_threshold_text(
    bucket: Seq<char>,
    since: Timestamp,
    until: Timestamp,
    measurement: Seq<char>,
    field: Seq<char>,
    every: Seq<char>,
    threshold: Seq<char>,
) -> Seq<char> {
    "from(bucket: \""@ + bucket + "\") |> range(start: "@ + ts_text(since) + ", stop: "@ + ts_text(until)
        + ") |> filter(fn: (r) => r._measurement == \""@ + measurement + "\" and r.field == \""@ + field
        + "\") |> aggregateWindow(every: "@ + every
        + ", fn: last, createEmpty: false) |> map(fn: (r) => ({ r with active: if r._value >= "@ + threshold
        + " then 1 else 0 })) |> difference(columns:[\"active\"], keepFirst:false) |> filter(fn:(r) => r.active != 0) |> keep(columns:[\"_time\",\"active\"])"@
}

/// The state-change script for periods in which a measurement reads at or above a
/// threshold.
pub fn above_threshold_flux(
    bucket: &str,
    since: &Timestamp,
    until: &Timestamp,
    measurement: &str,
    field: &str,
    every: &str,
    threshold: &str,
) -> (r: String)
    requires
        since.wf(),
        until.wf(),
    ensures
        r@ == above_threshold_text(bucket@, *since, *until, measurement@, field@, every@, threshold@),
{
    let mut s = owned("from(bucket: \"");
    s.append(bucket);
    s.append("\") |> range(start: ");
    s.append(since.to_rfc3339().as_str());
    s.append(", stop: ");
    s.append(until.to_rfc3339().as_str());
    s.append(") |> filter(fn: (r) => r._measurement == \"");
    s.append(measurement);
    s.append("\" and r.field == \"");
    s.append(field);
    s.append("\") |> aggregateWindow(every: ");
    s.append(every);
    s.append(", fn: last, createEmpty: false) |> map(fn: (r) => ({ r with active: if r._value >= ");
    s.append(threshold);
    s.append(" then 1 else 0 })) |> difference(columns:[\"active\"], keepFirst:false) |> filter(fn:(r) => r.active != 0) |> keep(columns:[\"_time\",\"active\"])");
    s
}

/// The script giving the largest gap between the tank's top sensor (`emon` `dhw_t1`) and
/// the boiler's storage reading (`ebusd_poll` `HwcStorageTemp`), on 30-second last values.
pub open spec fn max_divergence_text(bucket: Seq<char>, since: Timestamp, until: Timestamp) -> Seq<char> {
    "t1 = from(bucket: \""@ + bucket + "\") |> range(start: "@ + ts_text(since) + ", stop: "@ + ts_text(until)
        + ") |> filter(fn: (r) => r._measurement == \"emon\" and r.field == \"dhw_t1\") |> aggregateWindow(every: 30s, fn: last, createEmpty: false) |> keep(columns:[\"_time\",\"_value\"]) |> set(key: \"series\", value: \"t1\")\n\nhwc = from(bucket: \""@
        + bucket + "\") |> range(start: "@ + ts_text(since) + ", stop: "@ + ts_text(until)
        + ") |> filter(fn: (r) => r._measurement == \"ebusd_poll\" and r.field == \"HwcStorageTemp\") |> aggregateWindow(every: 30s, fn: last, createEmpty: false) |> keep(columns:[\"_time\",\"_value\"]) |> set(key: \"series\", value: \"hwc\")\n\nunion(tables:[t1, hwc]) |> pivot(rowKey:[\"_time\"], columnKey:[\"series\"], valueColumn:\"_value\") |> map(fn:(r)=> ({ r with diff: if r.t1 > r.hwc then r.t1 - r.hwc else r.hwc - r.t1 })) |> keep(columns:[\"_time\",\"diff\"]) |> rename(columns: {diff: \"_value\"}) |> max()"@
}

/// The script for the largest tank-sensor divergence in a window.
pub fn max_divergence_flux(bucket: &str, since: &Timestamp, until: &Timestamp) -> (r: String)
    requires
        since.wf(),
        until.wf(),
    ensures
        r@ == max_divergence_text(bucket@, *since, *until),
{
    let start = since.to_rfc3339();
    let stop = until.to_rfc3339();
    let mut s = owned("t1 = from(bucket: \"");
    s.append(bucket);
    s.append("\") |> range(start: ");
    s.append(start.as_str());
    s.append(", stop: ");
    s.append(stop.as_str());
    s.append(") |> filter(fn: (r) => r._measurement == \"emon\" and r.field == \"dhw_t1\") |> aggregateWindow(every: 30s, fn: last, createEmpty: false) |> keep(columns:[\"_time\",\"_value\"]) |> set(key: \"series\", value: \"t1\")\n\nhwc = from(bucket: \"");
    s.append(bucket);
    s.append("\") |> range(start: ");
    s.append(start.as_str());
    s.append(", stop: ");
    s.append(stop.as_str());
    s.append(") |> filter(fn: (r) => r._measurement == \"ebusd_poll\" and r.field == \"HwcStorageTemp\") |> aggregateWindow(every: 30s, fn: last, createEmpty: false) |> keep(columns:[\"_time\",\"_value\"]) |> set(key: \"series\", value: \"hwc\")\n\nunion(tables:[t1, hwc]) |> pivot(rowKey:[\"_time\"], columnKey:[\"series\"], valueColumn:\"_value\") |> map(fn:(r)=> ({ r with diff: if r.t1 > r.hwc then r.t1 - r.hwc else r.hwc - r.t1 })) |> keep(columns:[\"_time\",\"diff\"]) |> rename(columns: {diff: \"_value\"}) |> max()");
    s
}

/// The script reading the adaptive heating controller's decisions: its flow targets and
/// curve, pivoted per time with mode, action and tariff (each `unknown` where missing).
pub open spec fn controller_rows_text(bucket: Seq<char>, since: Timestamp, until: Timestamp) -> Seq<char> {
    "from(bucket: \""@ + bucket + "\")\n  |> range(start: "@ + ts_text(since) + ", stop: "@ + ts_text(until)
        + ")\n  |> filter(fn: (r) => r._measurement == \"adaptive_heating_mvp\")\n  |> filter(fn: (r) => r._field == \"target_flow_c\" or r._field == \"curve_after\" or r._field == \"flow_desired_c\")\n  |> map(fn: (r) => ({ r with mode: if exists r.mode then r.mode else \"unknown\", action: if exists r.action then r.action else \"unknown\", tariff: if exists r.tariff then r.tariff else \"unknown\" }))\n  |> pivot(rowKey: [\"_time\", \"mode\", \"action\", \"tariff\"], columnKey: [\"_field\"], valueColumn: \"_value\")\n  |> keep(columns: [\"_time\", \"mode\", \"action\", \"tariff\", \"target_flow_c\", \"curve_after\", \"flow_desired_c\"])"@
}

/// The script for the heating controller's rows in a window.
pub fn controller_rows_flux(bucket: &str, since: &Timestamp, until: &Timestamp) -> (r: String)
    requires
        since.wf(),
        until.wf(),
    ensures
        r@ == controller_rows_text(bucket@, *since, *until),
{
    let mut s = owned("from(bucket: \"");
    s.append(bucket);
    s.append("\")\n  |> range(start: ");
    s.append(since.to_rfc3339().as_str());
    s.append(", stop: ");
    s.append(until.to_rfc3339().as_str());
    s.append(")\n  |> filter(fn: (r) => r._measurement == \"adaptive_heating_mvp\")\n  |> filter(fn: (r) => r._field == \"target_flow_c\" or r._field == \"curve_after\" or r._field == \"flow_desired_c\")\n  |> map(fn: (r) => ({ r with mode: if exists r.mode then r.mode else \"unknown\", action: if exists r.action then r.action else \"unknown\", tariff: if exists r.tariff then r.tariff else \"unknown\" }))\n  |> pivot(rowKey: [\"_time\", \"mode\", \"action\", \"tariff\"], columnKey: [\"_field\"], valueColumn: \"_value\")\n  |> keep(columns: [\"_time\", \"mode\", \"action\", \"tariff\", \"target_flow_c\", \"curve_after\", \"flow_desired_c\"])");
    s
}

/// Index of the first row whose `_value` is usable (present, not empty, not a header).
pub open spec fn is_first_usable(rows: Seq<Seq<(Seq<char>, Seq<char>)>>, i: int) -> bool {
    0 <= i < rows.len() && usable_value(lookup(rows[i], "_value"@)) && forall|j: int|
        0 <= j < i ==> !usable_value(#[trigger] lookup(rows[j], "_value"@))
}

/// The first usable `_value` of a result.
pub fn first_usable_value(rows: &Vec<FluxRow>) -> (r: Option<String>)
    ensures
        r is None <==> forall|j: int| 0 <= j < rows@.len() ==> !usable_value(#[trigger] lookup(rows_cells(rows@)[j], "_value"@)),
        r matches Some(v) ==> exists|i: int| is_first_usable(rows_cells(rows@), i) && lookup(rows_cells(rows@)[i], "_value"@) == Some(v@),
{
    let ghost cells = rows_cells(rows@);
    let mut i: usize = 0;
    while i < rows.len()
        invariant
            i <= rows@.len(),
            cells == rows_cells(rows@),
            forall|j: int| 0 <= j < i ==> !usable_value(#[trigger] lookup(cells[j], "_value"@)),
        decreases rows@.len() - i,
    {
        assert(cells[i as int] == rows@[i as int]@);
        match rows[i].get("_value") {
            Some(v) => {
                if v.as_str().unicode_len() > 0 && !str_eq(v.as_str(), "_value") {
                    assert(is_first_usable(cells, i as int));
                    return Some(owned(v.as_str()));
                }
            },
            None => {},
        }
        i = i + 1;
    }
    None
}

/// The first row has a time that is present, not empty and not a header, and a value that is
/// present and not empty.
pub open spec fn point_row(cells: Seq<(Seq<char>, Seq<char>)>) -> bool {
    lookup(cells, "_time"@) is Some && lookup(cells, "_value"@) is Some && lookup(cells, "_time"@).unwrap().len() > 0
        && lookup(cells, "_time"@).unwrap() != "_time"@ && lookup(cells, "_value"@).unwrap().len() > 0
}

/// The time and value text of the first row that carries both; an unreadable time in that
/// row is an error.
pub fn first_point_cells(rows: &Vec<FluxRow>) -> (r: Result<Option<(Timestamp, String)>, ThermalError>)
    ensures
        (forall|j: int| 0 <= j < rows@.len() ==> !point_row(#[trigger] rows_cells(rows@)[j])) ==> (r matches Ok(None)),
        forall|i: int|
            0 <= i < rows@.len() && #[trigger] point_row(rows_cells(rows@)[i]) && (forall|j: int|
                0 <= j < i ==> !point_row(#[trigger] rows_cells(rows@)[j])) ==> {
                let t = lookup(rows_cells(rows@)[i], "_time"@).unwrap();
                let v = lookup(rows_cells(rows@)[i], "_value"@).unwrap();
                match parsed_dt(t) {
                    Some(p) => r matches Ok(Some(x)) && x.0 == ts_of(p) && x.1@ == v && x.0.wf(),
                    None => r matches Err(ThermalError::DateTimeParse { value, .. }) && value@ == t,
                }
            },
{
    let ghost cells = rows_cells(rows@);
    let mut i: usize = 0;
    while i < rows.len()
        invariant
            i <= rows@.len(),
            cells == rows_cells(rows@),
            forall|j: int| 0 <= j < i ==> !point_row(#[trigger] cells[j]),
        decreases rows@.len() - i,
    {
        assert(cells[i as int] == rows@[i as int]@);
        let row = &rows[i];
        match (row.get("_time"), row.get("_value")) {
            (Some(t), Some(v)) => {
                if t.as_str().unicode_len() > 0 && !str_eq(t.as_str(), "_time") && v.as_str().unicode_len() > 0 {
                    assert(point_row(cells[i as int]));
                    let ts = match parse_dt(t.as_str()) {
                        Ok(ts) => ts,
                        Err(e) => {
                            return Err(e);
                        },
                    };
                    return Ok(Some((ts, owned(v.as_str()))));
                }
            },
            _ => {},
        }
        i = i + 1;
    }
    Ok(None)
}

} // verus!
