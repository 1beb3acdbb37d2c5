//! InfluxDB requests: endpoint URLs, the Flux scripts of the series queries, and the columns
//! read back from their rows.
use vstd::prelude::*;

use crate::error::ThermalError;
use crate::flux::{lookup, FluxRow};
use crate::heating::ts_text;
use crate::history::{join, join_strings, strings_view};
use crate::text::{owned, starts_with, str_eq, strip_prefix};
use crate::time::{parse_dt, parsed_dt, Timestamp};

verus! {

/// `s` without its trailing `/` characters.
pub open spec fn trim_trailing_slashes(s: Seq<char>) -> Seq<char>
    decreases s.len(),
{
    if s.len() > 0 && s.last() == '/' {
        trim_trailing_slashes(s.drop_last())
    } else {
        s
    }
}

fn trim_slashes(s: &str) -> (r: &str)
    ensures
        r@ == trim_trailing_slashes(s@),
{
    let mut n = s.unicode_len();
    assert(s@.take(n as int) =~= s@);
    while n > 0 && s.get_char(n - 1) == '/'
        invariant
            n <= s@.len(),
            trim_trailing_slashes(s@) == trim_trailing_slashes(s@.take(n as int)),
        decreases n,
    {
        proof {
            assert(s@.take(n as int).drop_last() =~= s@.take(n - 1));
        }
        n = n - 1;
    }
    proof {
        if n > 0 {
            assert(s@.take(n as int).last() == s@[n - 1]);
        }
    }
    let r = s.substring_char(0, n);
    assert(r@ =~= s@.take(n as int));
    r
}

/// The query endpoint of an InfluxDB server for an organisation.
pub fn flux_query_url(influx_url: &str, org: &str) -> (r: String)
    ensures
        r@ == trim_trailing_slashes(influx_url@) + "/api/v2/query?org="@ + org@,
{
    let mut s = owned(trim_slashes(influx_url));
    s.append("/api/v2/query?org=");
    s.append(org);
    s
}

/// The line-protocol write endpoint for a bucket, with second precision.
pub fn influx_write_url(url: &str, org: &str, bucket: &str) -> (r: String)
    ensures
        r@ == trim_trailing_slashes(url@) + "/api/v2/write?org="@ + org@ + "&bucket="@ + bucket@
            + "&precision=s"@,
{
    let mut s = owned(trim_slashes(url));
    s.append("/api/v2/write?org=");
    s.append(org);
    s.append("&bucket=");
    s.append(bucket);
    s.append("&precision=s");
    s
}

/// Topics whose readings are stored under the `value` field; other room sensors write
/// `temperature`.
pub open spec fn uses_value_field(topic: Seq<char>) -> bool {
    topic == "emon/emonth2_23/temperature"@ || starts_with(topic, "ebusd/poll/"@)
}

/// The Flux filter term selecting a room sensor's temperature readings.
pub open spec fn room_condition(topic: Seq<char>) -> Seq<char> {
    "(r.topic == \""@ + topic + (if uses_value_field(topic) {
        "\" and r._field == \"value\")"@
    } else {
        "\" and r._field == \"temperature\")"@
    })
}

/// The topics' text.
pub open spec fn topics_view(topics: Seq<&str>) -> Seq<Seq<char>> {
    topics.map_values(|t: &str| t@)
}

/// One filter term per topic, in order.
pub open spec fn room_conditions(topics: Seq<Seq<char>>) -> Seq<Seq<char>> {
    topics.map_values(|t: Seq<char>| room_condition(t))
}

/// `from(bucket) |> range(start, stop) |> filter(cond)`, the head of every series query.
pub open spec fn flux_head(bucket: Seq<char>, start: Timestamp, stop: Timestamp, cond: Seq<char>) -> Seq<char> {
    "from(bucket: \""@ + bucket + "\")\n  |> range(start: "@ + ts_text(start) + ", stop: "@
        + ts_text(stop) + ")\n  |> filter(fn: (r) => "@ + cond + ")"@
}

/// Five-minute means of each topic, keeping time, topic and value.
pub open spec fn topic_means_flux(bucket: Seq<char>, start: Timestamp, stop: Timestamp, cond: Seq<char>) -> Seq<char> {
    flux_head(bucket, start, stop, cond)
        + "\n  |> aggregateWindow(every: 5m, fn: mean, createEmpty: false)\n  |> keep(columns: [\"_time\", \"topic\", \"_value\"])"@
}

fn flux_head_exec(bucket: &str, start: &Timestamp, stop: &Timestamp, cond: &str) -> (r: String)
    requires
        start.wf(),
        stop.wf(),
    ensures
        r@ == flux_head(bucket@, *start, *stop, cond@),
{
    let mut s = owned("from(bucket: \"");
    s.append(bucket);
    s.append("\")\n  |> range(start: ");
    s.append(start.to_rfc3339().as_str());
    s.append(", stop: ");
    s.append(stop.to_rfc3339().as_str());
    s.append(")\n  |> filter(fn: (r) => ");
    s.append(cond);
    s.append(")");
    s
}

/// The filter term for one room sensor topic.
pub fn room_temp_condition(topic: &str) -> (r: String)
    ensures
        r@ == room_condition(topic@),
{
    let mut s = owned("(r.topic == \"");
    s.append(topic);
    let value_field = str_eq(topic, "emon/emonth2_23/temperature") || strip_prefix(
        topic,
        "ebusd/poll/",
    ).is_some();
    if value_field {
        s.append("\" and r._field == \"value\")");
    } else {
        s.append("\" and r._field == \"temperature\")");
    }
    s
}

/// The Flux script for five-minute room temperatures of the given sensors.
pub fn room_temps_flux(bucket: &str, sensor_topics: &[&str], start: &Timestamp, stop: &Timestamp) -> (r: String)
    requires
        start.wf(),
        stop.wf(),
    ensures
        r@ == topic_means_flux(
            bucket@,
            *start,
            *stop,
            join(room_conditions(topics_view(sensor_topics@)), " or "@),
        ),
{
    let ghost ts = topics_view(sensor_topics@);
    let mut conds: Vec<String> = Vec::new();
    let mut i: usize = 0;
    while i < sensor_topics.len()
        invariant
            i <= sensor_topics@.len(),
            ts == topics_view(sensor_topics@),
            strings_view(conds@) == room_conditions(ts.take(i as int)),
        decreases sensor_topics@.len() - i,
    {
        let ghost before = strings_view(conds@);
        conds.push(room_temp_condition(sensor_topics[i]));
        proof {
            assert(ts[i as int] == sensor_topics@[i as int]@);
            assert(strings_view(conds@) =~= before.push(room_condition(ts[i as int])));
            assert(room_conditions(ts.take(i + 1)) =~= room_conditions(ts.take(i as int)).push(
                room_condition(ts[i as int]),
            ));
        }
        i = i + 1;
    }
    assert(ts.take(sensor_topics@.len() as int) =~= ts);
    let cond = join_strings(&conds, " or ");
    let mut s = flux_head_exec(bucket, start, stop, cond.as_str());
    s.append(
        "\n  |> aggregateWindow(every: 5m, fn: mean, createEmpty: false)\n  |> keep(columns: [\"_time\", \"topic\", \"_value\"])",
    );
    s
}

/// Humidity filter terms: one per topic, skipping the one sensor that reports no humidity.
pub open spec fn humidity_conditions(topics: Seq<Seq<char>>) -> Seq<Seq<char>>
    decreases topics.len(),
{
    if topics.len() == 0 {
        Seq::empty()
    } else if topics.last() == "emon/emonth2_23/temperature"@ {
        humidity_conditions(topics.drop_last())
    } else {
        humidity_conditions(topics.drop_last()).push(
            "(r.topic == \""@ + topics.last() + "\" and r._field == \"humidity\")"@,
        )
    }
}

/// The Flux script for five-minute room humidity of the given sensors, or `None` when no
/// sensor reports humidity.
pub fn humidity_flux(bucket: &str, sensor_topics: &[&str], start: &Timestamp, stop: &Timestamp) -> (r: Option<String>)
    requires
        start.wf(),
        stop.wf(),
    ensures
        r is None <==> humidity_conditions(topics_view(sensor_topics@)).len() == 0,
        r matches Some(f) ==> f@ == topic_means_flux(
            bucket@,
            *start,
            *stop,
            join(humidity_conditions(topics_view(sensor_topics@)), " or "@),
        ),
{
    let ghost ts = topics_view(sensor_topics@);
    let mut conds: Vec<String> = Vec::new();
    let mut i: usize = 0;
    while i < sensor_topics.len()
        invariant
            i <= sensor_topics@.len(),
            ts == topics_view(sensor_topics@),
            strings_view(conds@) == humidity_conditions(ts.take(i as int)),
        decreases sensor_topics@.len() - i,
    {
        let t = sensor_topics[i];
        proof {
            assert(ts.take(i + 1).drop_last() =~= ts.take(i as int));
            assert(ts.take(i + 1).last() == t@);
        }
        if !str_eq(t, "emon/emonth2_23/temperature") {
            let mut c = owned("(r.topic == \"");
            c.append(t);
            c.append("\" and r._field == \"humidity\")");
            conds.push(c);
        }
        i = i + 1;
        assert(strings_view(conds@) =~= humidity_conditions(ts.take(i as int)));
    }
    assert(ts.take(sensor_topics@.len() as int) =~= ts);
    if conds.len() == 0 {
        return None;
    }
    let cond = join_strings(&conds, " or ");
    let mut s = flux_head_exec(bucket, start, stop, cond.as_str());
    s.append(
        "\n  |> aggregateWindow(every: 5m, fn: mean, createEmpty: false)\n  |> keep(columns: [\"_time\", \"topic\", \"_value\"])",
    );
    Some(s)
}

/// One topic's readings aggregated over windows of `every` with `func`, keeping time and
/// value.
pub open spec fn topic_series_text(
    bucket: Seq<char>,
    start: Timestamp,
    stop: Timestamp,
    topic: Seq<char>,
    every: Seq<char>,
    func: Seq<char>,
) -> Seq<char> {
    flux_head(bucket, start, stop, "r.topic == \""@ + topic + "\""@) + "\n  |> aggregateWindow(every: "@
        + every + ", fn: "@ + func + ", createEmpty: false)\n  |> keep(columns: [\"_time\", \"_value\"])"@
}

/// The Flux script for one topic's aggregated series (outside temperature, status codes,
/// PV power, circuit flow).
pub fn topic_series_flux(
    bucket: &str,
    start: &Timestamp,
    stop: &Timestamp,
    topic: &str,
    every: &str,
    func: &str,
) -> (r: String)
    requires
        start.wf(),
        stop.wf(),
    ensures
        r@ == topic_series_text(bucket@, *start, *stop, topic@, every@, func@),
{
    let mut cond = owned("r.topic == \"");
    cond.append(topic);
    cond.append("\"");
    let mut s = flux_head_exec(bucket, start, stop, cond.as_str());
    s.append("\n  |> aggregateWindow(every: ");
    s.append(every);
    s.append(", fn: ");
    s.append(func);
    s.append(", createEmpty: false)\n  |> keep(columns: [\"_time\", \"_value\"])");
    s
}

/// The last reading of a topic in the window.
/// The mean water temperature script: five-minute means of the flow and return readings,
/// joined per time and averaged.
pub open spec fn mwt_text(bucket: Seq<char>, start: Timestamp, stop: Timestamp) -> Seq<char> {
    "flow = from(bucket: \""@ + bucket + "\")\n  |> range(start: "@ + ts_text(start) + ", stop: "@ + ts_text(stop)
        + ")\n  |> filter(fn: (r) => r.topic == \"ebusd/poll/FlowTemp\")\n  |> aggregateWindow(every: 5m, fn: mean, createEmpty: false)\n  |> keep(columns: [\"_time\", \"_value\"])\n  |> set(key: \"_field\", value: \"flow\")\n\nret = from(bucket: \""@
        + bucket + "\")\n  |> range(start: "@ + ts_text(start) + ", stop: "@ + ts_text(stop)
        + ")\n  |> filter(fn: (r) => r.topic == \"ebusd/poll/ReturnTemp\")\n  |> aggregateWindow(every: 5m, fn: mean, createEmpty: false)\n  |> keep(columns: [\"_time\", \"_value\"])\n  |> set(key: \"_field\", value: \"return\")\n\nunion(tables: [flow, ret])\n  |> pivot(rowKey: [\"_time\"], columnKey: [\"_field\"], valueColumn: \"_value\")\n  |> map(fn: (r) => ({ r with _value: (r.flow + r[\"return\"]) / 2.0 }))\n  |> keep(columns: [\"_time\", \"_value\"])"@
}

/// The mean water temperature script for a window.
pub fn mwt_flux(bucket: &str, start: &Timestamp, stop: &Timestamp) -> (r: String)
    requires
        start.wf(),
        stop.wf(),
    ensures
        r@ == mwt_text(bucket@, *start, *stop),
{
    let s_text = start.to_rfc3339();
    let e_text = stop.to_rfc3339();
    let mut s = owned("flow = from(bucket: \"");
    s.append(bucket);
    s.append("\")\n  |> range(start: ");
    s.append(s_text.as_str());
    s.append(", stop: ");
    s.append(e_text.as_str());
    s.append(")\n  |> filter(fn: (r) => r.topic == \"ebusd/poll/FlowTemp\")\n  |> aggregateWindow(every: 5m, fn: mean, createEmpty: false)\n  |> keep(columns: [\"_time\", \"_value\"])\n  |> set(key: \"_field\", value: \"flow\")\n\nret = from(bucket: \"");
    s.append(bucket);
    s.append("\")\n  |> range(start: ");
    s.append(s_text.as_str());
    s.append(", stop: ");
    s.append(e_text.as_str());
    s.append(")\n  |> filter(fn: (r) => r.topic == \"ebusd/poll/ReturnTemp\")\n  |> aggregateWindow(every: 5m, fn: mean, createEmpty: false)\n  |> keep(columns: [\"_time\", \"_value\"])\n  |> set(key: \"_field\", value: \"return\")\n\nunion(tables: [flow, ret])\n  |> pivot(rowKey: [\"_time\"], columnKey: [\"_field\"], valueColumn: \"_value\")\n  |> map(fn: (r) => ({ r with _value: (r.flow + r[\"return\"]) / 2.0 }))\n  |> keep(columns: [\"_time\", \"_value\"])");
    s
}

pub open spec fn latest_value_text(bucket: Seq<char>, start: Timestamp, stop: Timestamp, topic: Seq<char>) -> Seq<char> {
    "from(bucket: \""@ + bucket + "\") |> range(start: "@ + ts_text(start) + ", stop: "@ + ts_text(stop)
        + ") |> filter(fn: (r) => r.topic == \""@ + topic
        + "\") |> last() |> keep(columns: [\"_value\"])"@
}

/// The Flux script for the last reading of a topic.
pub fn latest_value_flux(bucket: &str, start: &Timestamp, stop: &Timestamp, topic: &str) -> (r: String)
    requires
        start.wf(),
        stop.wf(),
    ensures
        r@ == latest_value_text(bucket@, *start, *stop, topic@),
{
    let mut s = owned("from(bucket: \"");
    s.append(bucket);
    s.append("\") |> range(start: ");
    s.append(start.to_rfc3339().as_str());
    s.append(", stop: ");
    s.append(stop.to_rfc3339().as_str());
    s.append(") |> filter(fn: (r) => r.topic == \"");
    s.append(topic);
    s.append("\") |> last() |> keep(columns: [\"_value\"])");
    s
}

/// Where the latest reading of a topic lives in PostgreSQL: the polled table for
/// `ebusd/poll/` topics, the live table for other `ebusd/<circuit>/` topics.
pub enum LatestSource<'a> {
    Poll { field: &'a str },
    Live { field: &'a str },
}

/// The PostgreSQL source of a topic's latest reading, if it has one.
pub fn latest_value_source(topic: &str) -> (r: Option<LatestSource<'_>>)
    ensures
        starts_with(topic@, "ebusd/poll/"@) ==> (r matches Some(LatestSource::Poll { field }) && field@
            == topic@.skip(11)),
        !starts_with(topic@, "ebusd/poll/"@) ==> (match r {
            Some(LatestSource::Live { field }) => crate::topics::ebusd_live_field_of(topic@) == Some(field@),
            Some(LatestSource::Poll { .. }) => false,
            None => crate::topics::ebusd_live_field_of(topic@) is None,
        }),
{
    proof {
        reveal_strlit("ebusd/poll/");
    }
    if let Some(field) = strip_prefix(topic, "ebusd/poll/") {
        return Some(LatestSource::Poll { field });
    }
    match crate::topics::ebusd_live_field(topic) {
        Some(field) => Some(LatestSource::Live { field }),
        None => None,
    }
}

/// Text of the `_time` and `_value` cells of a series row, the time read.
pub open spec fn time_value_of(cells: Seq<(Seq<char>, Seq<char>)>) -> Option<(Timestamp, Seq<char>)> {
    match (lookup(cells, "_time"@), lookup(cells, "_value"@)) {
        (Some(t), Some(v)) => match parsed_dt(t) {
            Some(p) => Some((crate::time::ts_of(p), v)),
            None => None,
        },
        _ => None,
    }
}

/// Reads a series row's time and the text of its value. Missing `_time` comes first, then
/// an unreadable time, then missing `_value`.
pub fn time_value_cells(
    row: &FluxRow,
    time_context: &'static str,
    value_context: &'static str,
) -> (r: Result<(Timestamp, String), ThermalError>)
    ensures
        r is Ok <==> time_value_of(row@) is Some,
        r matches Ok(p) ==> time_value_of(row@) == Some((p.0, p.1@)) && p.0.wf(),
        lookup(row@, "_time"@) is None ==> (r matches Err(ThermalError::MissingColumn { column, context })
            && column@ == "_time"@ && context@ == time_context@),
        lookup(row@, "_time"@) is Some && parsed_dt(lookup(row@, "_time"@).unwrap()) is None ==> (
        r matches Err(ThermalError::DateTimeParse { value, .. }) && value@ == lookup(
            row@,
            "_time"@,
        ).unwrap()),
        lookup(row@, "_time"@) is Some && parsed_dt(lookup(row@, "_time"@).unwrap()) is Some && lookup(
            row@,
            "_value"@,
        ) is None ==> (r matches Err(ThermalError::MissingColumn { column, context }) && column@ == "_value"@
            && context@ == value_context@),
{
    let time_str = match row.get("_time") {
        Some(t) => t,
        None => {
            return Err(ThermalError::MissingColumn { column: "_time", context: time_context });
        },
    };
    let t = match parse_dt(time_str.as_str()) {
        Ok(t) => t,
        Err(e) => {
            return Err(e);
        },
    };
    let value_str = match row.get("_value") {
        Some(v) => v,
        None => {
            return Err(ThermalError::MissingColumn { column: "_value", context: value_context });
        },
    };
    Ok((t, owned(value_str.as_str())))
}

/// The filter of a measurement series: `emon` readings are stored under the `value` field
/// when aggregated; the field tag names the series.
pub open spec fn measurement_cond(measurement: Seq<char>, field: Seq<char>, aggregated: bool) -> Seq<char> {
    if measurement == "emon"@ && aggregated {
        "r._measurement == \"emon\" and r._field == \"value\" and r.field == \""@ + field + "\""@
    } else {
        "r._measurement == \""@ + measurement + "\" and r.field == \""@ + field + "\""@
    }
}

/// A measurement series, raw or aggregated over windows of `every` with `func`.
pub open spec fn measurement_series_text(
    bucket: Seq<char>,
    measurement: Seq<char>,
    field: Seq<char>,
    start: Timestamp,
    stop: Timestamp,
    aggregate: Option<(Seq<char>, Seq<char>)>,
) -> Seq<char> {
    let head = flux_head(bucket, start, stop, measurement_cond(measurement, field, aggregate is Some));
    match aggregate {
        Some((every, func)) => head + "\n  |> aggregateWindow(every: "@ + every + ", fn: "@ + func
            + ", createEmpty: false)"@,
        None => head,
    }
}

/// The Flux script for a hot-water series from the `emon` or `ebusd_poll` measurement.
pub fn measurement_series_flux(
    bucket: &str,
    measurement: &str,
    field: &str,
    start: &Timestamp,
    stop: &Timestamp,
    aggregate: Option<(&str, &str)>,
) -> (r: String)
    requires
        start.wf(),
        stop.wf(),
        measurement@ == "emon"@ || measurement@ == "ebusd_poll"@,
    ensures
        r@ == measurement_series_text(
            bucket@,
            measurement@,
            field@,
            *start,
            *stop,
            match aggregate {
                Some((e, f)) => Some((e@, f@)),
                None => None,
            },
        ),
{
    let mut cond = owned("r._measurement == \"");
    if str_eq(measurement, "emon") && aggregate.is_some() {
        cond = owned("r._measurement == \"emon\" and r._field == \"value\" and r.field == \"");
    } else {
        cond.append(measurement);
        cond.append("\" and r.field == \"");
    }
    cond.append(field);
    cond.append("\"");
    let mut s = flux_head_exec(bucket, start, stop, cond.as_str());
    match aggregate {
        Some((every, func)) => {
            s.append("\n  |> aggregateWindow(every: ");
            s.append(every);
            s.append(", fn: ");
            s.append(func);
            s.append(", createEmpty: false)");
        },
        None => {},
    }
    s
}

/// A series selected by `filter`, aggregated over windows of `every` with `func`, keeping
/// time and value.
pub open spec fn aggregated_series_text(
    bucket: Seq<char>,
    start: Timestamp,
    stop: Timestamp,
    filter: Seq<char>,
    every: Seq<char>,
    func: Seq<char>,
) -> Seq<char> {
    flux_head(bucket, start, stop, filter) + "\n  |> aggregateWindow(every: "@ + every + ", fn: "@ + func
        + ", createEmpty: false)\n  |> keep(columns: [\"_time\", \"_value\"])"@
}

/// The Flux script for an aggregated series under any filter.
pub fn aggregated_series_flux(
    bucket: &str,
    start: &Timestamp,
    stop: &Timestamp,
    filter: &str,
    every: &str,
    func: &str,
) -> (r: String)
    requires
        start.wf(),
        stop.wf(),
    ensures
        r@ == aggregated_series_text(bucket@, *start, *stop, filter@, every@, func@),
{
    let mut s = flux_head_exec(bucket, start, stop, filter);
    s.append("\n  |> aggregateWindow(every: ");
    s.append(every);
    s.append(", fn: ");
    s.append(func);
    s.append(", createEmpty: false)\n  |> keep(columns: [\"_time\", \"_value\"])");
    s
}

/// The Flux script listing the sample times of a series, for sampling statistics.
pub fn sample_times_flux(bucket: &str, start: &Timestamp, stop: &Timestamp, filter: &str) -> (r: String)
    requires
        start.wf(),
        stop.wf(),
    ensures
        r@ == flux_head(bucket@, *start, *stop, filter@) + "\n  |> keep(columns: [\"_time\"])"@,
{
    let mut s = flux_head_exec(bucket, start, stop, filter);
    s.append("\n  |> keep(columns: [\"_time\"])");
    s
}

} // verus!
