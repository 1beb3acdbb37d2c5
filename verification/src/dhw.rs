//! Domestic hot water sessions: routing of measurements and the tags written per draw.
use vstd::prelude::*;

use crate::text::{owned, starts_with, str_eq, strip_prefix};

verus! {

/// Output mode of the DHW session report.
#[derive(Debug, Clone, Copy, PartialEq, Eq)]
pub enum DhwSessionsOutput {
    /// Human-readable summary
    Human,
    /// Verbose per-draw table + summary
    Verbose,
    /// JSON to stdout
    Json,
}

/// Where a measurement's samples live in TimescaleDB.
#[derive(Debug, Clone, PartialEq, Eq)]
pub enum MeasurementRoute {
    Multical { column: String },
    EbusdPoll { field: String },
}

/// The route of an InfluxDB measurement and field: `emon` fields starting `dhw_` are
/// Multical columns (`dhw_volume_V1` is stored lower-case), every `ebusd_poll` field is an
/// eBUS poll field, anything else has no table.
pub open spec fn route_of_measurement(m: Seq<char>, f: Seq<char>) -> Option<(bool, Seq<char>)> {
    if m == "emon"@ && starts_with(f, "dhw_"@) {
        Some((true, if f == "dhw_volume_V1"@ { "dhw_volume_v1"@ } else { f }))
    } else if m == "ebusd_poll"@ {
        Some((false, f))
    } else {
        None
    }
}

/// (is Multical, column or field) of a route.
pub open spec fn route_view(r: Option<MeasurementRoute>) -> Option<(bool, Seq<char>)> {
    match r {
        Some(MeasurementRoute::Multical { column }) => Some((true, column@)),
        Some(MeasurementRoute::EbusdPoll { field }) => Some((false, field@)),
        None => None,
    }
}

/// Maps a measurement and field to the table that stores them.
pub fn measurement_route(measurement: &str, field: &str) -> (r: Option<MeasurementRoute>)
    ensures
        route_view(r) == route_of_measurement(measurement@, field@),
{
    if str_eq(measurement, "emon") && strip_prefix(field, "dhw_").is_some() {
        let column = if str_eq(field, "dhw_volume_V1") {
            String::from_str("dhw_volume_v1")
        } else {
            owned(field)
        };
        Some(MeasurementRoute::Multical { column })
    } else if str_eq(measurement, "ebusd_poll") {
        Some(MeasurementRoute::EbusdPoll { field: owned(field) })
    } else {
        None
    }
}

/// Draw type based on flow rate and volume.
#[derive(Debug, Clone, Copy, PartialEq, Eq, Structural)]
pub enum DrawType {
    Bath,
    Shower,
    Tap,
}

pub open spec fn draw_type_name(d: DrawType) -> Seq<char> {
    match d {
        DrawType::Bath => "bath"@,
        DrawType::Shower => "shower"@,
        DrawType::Tap => "tap"@,
    }
}

impl DrawType {
    /// The draw type's tag value.
    pub fn to_string(&self) -> (r: String)
        ensures
            r@ == draw_type_name(*self),
    {
        match self {
            DrawType::Bath => String::from_str("bath"),
            DrawType::Shower => String::from_str("shower"),
            DrawType::Tap => String::from_str("tap"),
        }
    }
}

/// Inflection classification for capacity analysis.
#[derive(Debug, Clone, Copy, PartialEq, Eq, Structural)]
pub enum InflectionCategory {
    /// Full capacity measurement (crossover charge + T1 inflection detected)
    Capacity,
    /// Partial charge state (inflection found but charge wasn't full)
    Partial,
    /// Lower bound (no definitive inflection, draw wasn't large enough)
    LowerBound,
}

pub open spec fn category_name(c: InflectionCategory) -> Seq<char> {
    match c {
        InflectionCategory::Capacity => "capacity"@,
        InflectionCategory::Partial => "partial"@,
        InflectionCategory::LowerBound => "lower_bound"@,
    }
}

impl InflectionCategory {
    /// The category's tag value.
    pub fn to_string(&self) -> (r: String)
        ensures
            r@ == category_name(*self),
    {
        match self {
            InflectionCategory::Capacity => String::from_str("capacity"),
            InflectionCategory::Partial => String::from_str("partial"),
            InflectionCategory::LowerBound => String::from_str("lower_bound"),
        }
    }
}

pub open spec fn bool_name(b: bool) -> Seq<char> {
    if b {
        "true"@
    } else {
        "false"@
    }
}

/// Measurement name and tag set of a `dhw_inflection` line-protocol record.
pub open spec fn inflection_tags_text(c: InflectionCategory, crossover: bool, d: DrawType) -> Seq<char> {
    "dhw_inflection,category="@ + category_name(c) + ",crossover="@ + bool_name(crossover)
        + ",draw_type="@ + draw_type_name(d)
}

/// Builds the measurement and tags of a `dhw_inflection` record. Line protocol separates
/// tags from fields with a space, so the tag set holds none.
pub fn inflection_tags(category: InflectionCategory, crossover: bool, draw_type: DrawType) -> (r: String)
    ensures
        r@ == inflection_tags_text(category, crossover, draw_type),
        !r@.contains(' '),
{
    let mut s = String::from_str("dhw_inflection,category=");
    let c = category.to_string();
    s.append(c.as_str());
    s.append(",crossover=");
    if crossover {
        s.append("true");
    } else {
        s.append("false");
    }
    s.append(",draw_type=");
    let d = draw_type.to_string();
    s.append(d.as_str());
    proof {
        reveal_strlit("dhw_inflection,category=");
        reveal_strlit(",crossover=");
        reveal_strlit(",draw_type=");
        reveal_strlit("true");
        reveal_strlit("false");
        reveal_strlit("capacity");
        reveal_strlit("partial");
        reveal_strlit("lower_bound");
        reveal_strlit("bath");
        reveal_strlit("shower");
        reveal_strlit("tap");
        assert(!s@.contains(' ')) by {
            if s@.contains(' ') {
                let i = choose|i: int| 0 <= i < s@.len() && s@[i] == ' ';
                assert(s@[i] != ' ');
            }
        }
    }
    s
}

/// The PostgreSQL statement reading a hot-water series: raw samples, per-interval maxima
/// (Multical only) or per-interval last samples. eBUS statements take the field as `$1`
/// and the window as `$2`, `$3`; Multical statements take the window as `$1`, `$2`.
pub open spec fn pg_series_text(route: MeasurementRoute, aggregate: Option<(Seq<char>, Seq<char>)>) -> Seq<char> {
    match route {
        MeasurementRoute::Multical { column } => {
            let c = column@;
            match aggregate {
                Some((i, f)) => if f == "max"@ {
                    "SELECT time_bucket(INTERVAL '"@ + i + "', time) AS bucket, MAX(\""@ + c
                        + "\") AS value FROM multical WHERE time >= $1 AND time < $2 AND \""@ + c
                        + "\" IS NOT NULL GROUP BY bucket ORDER BY bucket"@
                } else {
                    "SELECT bucket, value FROM (SELECT DISTINCT ON (time_bucket(INTERVAL '"@ + i
                        + "', time)) time_bucket(INTERVAL '"@ + i + "', time) AS bucket, time, \""@ + c
                        + "\" AS value FROM multical WHERE time >= $1 AND time < $2 AND \""@ + c
                        + "\" IS NOT NULL ORDER BY time_bucket(INTERVAL '"@ + i
                        + "', time), time DESC) t ORDER BY bucket"@
                },
                None => "SELECT time, \""@ + c + "\" AS value FROM multical WHERE time >= $1 AND time < $2 AND \""@
                    + c + "\" IS NOT NULL ORDER BY time"@,
            }
        },
        MeasurementRoute::EbusdPoll { .. } => match aggregate {
            Some((i, _)) => "SELECT bucket, value FROM (SELECT DISTINCT ON (time_bucket(INTERVAL '"@ + i
                + "', time)) time_bucket(INTERVAL '"@ + i
                + "', time) AS bucket, time, value FROM ebusd_poll WHERE field = $1 AND time >= $2 AND time < $3 AND value IS NOT NULL ORDER BY time_bucket(INTERVAL '"@
                + i + "', time), time DESC) t ORDER BY bucket"@,
            None => "SELECT time, value FROM ebusd_poll WHERE field = $1 AND time >= $2 AND time < $3 AND value IS NOT NULL ORDER BY time"@,
        },
    }
}

/// The aggregates the statements support: `last` for every route, `max` for Multical.
pub open spec fn pg_aggregate_supported(route: MeasurementRoute, aggregate: Option<(Seq<char>, Seq<char>)>) -> bool {
    match aggregate {
        None => true,
        Some((_, f)) => f == "last"@ || (f == "max"@ && route is Multical),
    }
}

/// Builds the statement that reads a routed hot-water series.
pub fn pg_series_sql(route: &MeasurementRoute, aggregate: Option<(&str, &str)>) -> (r: String)
    requires
        pg_aggregate_supported(
            *route,
            match aggregate {
                Some((i, f)) => Some((i@, f@)),
                None => None,
            },
        ),
    ensures
        r@ == pg_series_text(
            *route,
            match aggregate {
                Some((i, f)) => Some((i@, f@)),
                None => None,
            },
        ),
{
    match route {
        MeasurementRoute::Multical { column } => {
            let c = column.as_str();
            match aggregate {
                Some((i, f)) => {
                    if str_eq(f, "max") {
                        let mut s = owned("SELECT time_bucket(INTERVAL '");
                        s.append(i);
                        s.append("', time) AS bucket, MAX(\"");
                        s.append(c);
                        s.append("\") AS value FROM multical WHERE time >= $1 AND time < $2 AND \"");
                        s.append(c);
                        s.append("\" IS NOT NULL GROUP BY bucket ORDER BY bucket");
                        s
                    } else {
                        let mut s = owned("SELECT bucket, value FROM (SELECT DISTINCT ON (time_bucket(INTERVAL '");
                        s.append(i);
                        s.append("', time)) time_bucket(INTERVAL '");
                        s.append(i);
                        s.append("', time) AS bucket, time, \"");
                        s.append(c);
                        s.append("\" AS value FROM multical WHERE time >= $1 AND time < $2 AND \"");
                        s.append(c);
                        s.append("\" IS NOT NULL ORDER BY time_bucket(INTERVAL '");
                        s.append(i);
                        s.append("', time), time DESC) t ORDER BY bucket");
                        s
                    }
                },
                None => {
                    let mut s = owned("SELECT time, \"");
                    s.append(c);
                    s.append("\" AS value FROM multical WHERE time >= $1 AND time < $2 AND \"");
                    s.append(c);
                    s.append("\" IS NOT NULL ORDER BY time");
                    s
                },
            }
        },
        MeasurementRoute::EbusdPoll { .. } => match aggregate {
            Some((i, _)) => {
                let mut s = owned("SELECT bucket, value FROM (SELECT DISTINCT ON (time_bucket(INTERVAL '");
                s.append(i);
                s.append("', time)) time_bucket(INTERVAL '");
                s.append(i);
                s.append("', time) AS bucket, time, value FROM ebusd_poll WHERE field = $1 AND time >= $2 AND time < $3 AND value IS NOT NULL ORDER BY time_bucket(INTERVAL '");
                s.append(i);
                s.append("', time), time DESC) t ORDER BY bucket");
                s
            },
            None => owned("SELECT time, value FROM ebusd_poll WHERE field = $1 AND time >= $2 AND time < $3 AND value IS NOT NULL ORDER BY time"),
        },
    }
}

/// Whatever the route and the bucket width, the `last` statement keeps one sample per
/// bucket with `DISTINCT ON` over the bucket, and orders each bucket's samples newest first,
/// so the sample kept is the bucket's latest.
pub proof fn lemma_last_keeps_latest_per_bucket(route: MeasurementRoute, interval: Seq<char>)
    ensures
        starts_with(
            pg_series_text(route, Some((interval, "last"@))),
            "SELECT bucket, value FROM (SELECT DISTINCT ON (time_bucket(INTERVAL '"@ + interval,
        ),
        crate::text::ends_with(
            pg_series_text(route, Some((interval, "last"@))),
            interval + "', time), time DESC) t ORDER BY bucket"@,
        ),
{
    let text = pg_series_text(route, Some((interval, "last"@)));
    let head = "SELECT bucket, value FROM (SELECT DISTINCT ON (time_bucket(INTERVAL '"@ + interval;
    let tail = interval + "', time), time DESC) t ORDER BY bucket"@;
    if "last"@ == "max"@ {
        reveal_strlit("last");
        reveal_strlit("max");
        assert("last"@[0] != "max"@[0]);
    }
    match route {
        MeasurementRoute::Multical { column } => {
            let c = column@;
            let mid = "', time)) time_bucket(INTERVAL '"@ + interval + "', time) AS bucket, time, \""@ + c
                + "\" AS value FROM multical WHERE time >= $1 AND time < $2 AND \""@ + c
                + "\" IS NOT NULL ORDER BY time_bucket(INTERVAL '"@;
            assert(text =~= head + mid + tail);
        },
        MeasurementRoute::EbusdPoll { .. } => {
            let mid = "', time)) time_bucket(INTERVAL '"@ + interval
                + "', time) AS bucket, time, value FROM ebusd_poll WHERE field = $1 AND time >= $2 AND time < $3 AND value IS NOT NULL ORDER BY time_bucket(INTERVAL '"@;
            assert(text =~= head + mid + tail);
        },
    }
    assert(text.subrange(0, head.len() as int) =~= head);
    assert(text.subrange(text.len() - tail.len(), text.len() as int) =~= tail);
}

/// The category of a draw's inflection: without a definitive inflection only a lower bound
/// is known; with one, it measures capacity when the preceding charge was full (it crossed
/// over and left T1 hot enough), and a partial charge state otherwise.
pub open spec fn category_of(has_definitive: bool, full_preceding_charge: bool) -> InflectionCategory {
    if !has_definitive {
        InflectionCategory::LowerBound
    } else if full_preceding_charge {
        InflectionCategory::Capacity
    } else {
        InflectionCategory::Partial
    }
}

/// Classifies a draw's inflection for capacity analysis.
pub fn inflection_category(has_definitive: bool, full_preceding_charge: bool) -> (r: InflectionCategory)
    ensures
        r == category_of(has_definitive, full_preceding_charge),
{
    if !has_definitive {
        InflectionCategory::LowerBound
    } else if full_preceding_charge {
        InflectionCategory::Capacity
    } else {
        InflectionCategory::Partial
    }
}

} // verus!
