//! Routing of MQTT-style topic names to TimescaleDB tables and columns.
use vstd::prelude::*;

use crate::text::{lacks, split_once_char, starts_with, strip_prefix};

verus! {

/// Where a topic's samples live in the time-series database.
#[derive(Debug, Clone, PartialEq, Eq)]
pub enum TopicRoute<'a> {
    ZigbeeTemp { device: &'a str },
    CtMonitor { source: &'a str, column: &'a str },
    Heatpump { column: &'a str },
    Multical { column: &'a str },
    Emonth { column: &'a str },
    Tesla { column: &'a str },
    Sensors { column: &'a str },
    Metoffice { column: &'a str },
    EbusdPoll { field: &'a str },
}

/// The rest of `t` after the prefix `p`.
pub open spec fn after(t: Seq<char>, p: Seq<char>) -> Seq<char> {
    t.skip(p.len() as int)
}

/// `r` is a CT-monitor route with the given source whose column is what follows `p` in `t`.
pub open spec fn is_ct_route(r: Option<TopicRoute>, t: Seq<char>, p: Seq<char>, source: Seq<char>) -> bool {
    r matches Some(TopicRoute::CtMonitor { source: s, column: c }) && s@ == source && c@ == after(t, p)
}

/// The route of a topic: the first known prefix that the topic starts with decides the
/// table, and what follows the prefix names the device, column or field.
pub open spec fn route_of(r: Option<TopicRoute>, t: Seq<char>) -> bool {
    if starts_with(t, "zigbee2mqtt/"@) {
        r matches Some(TopicRoute::ZigbeeTemp { device }) && device@ == after(t, "zigbee2mqtt/"@)
    } else if starts_with(t, "emon/EmonPi2/"@) {
        is_ct_route(r, t, "emon/EmonPi2/"@, "EmonPi2"@)
    } else if starts_with(t, "emon/emonpi2_cu/"@) {
        is_ct_route(r, t, "emon/emonpi2_cu/"@, "emonpi2_cu"@)
    } else if starts_with(t, "emon/emontx5_cu/"@) {
        is_ct_route(r, t, "emon/emontx5_cu/"@, "emontx5_cu"@)
    } else if starts_with(t, "emon/tesla/"@) {
        r matches Some(TopicRoute::Tesla { column }) && column@ == after(t, "emon/tesla/"@)
    } else if starts_with(t, "emon/heatpump/"@) {
        r matches Some(TopicRoute::Heatpump { column }) && column@ == after(t, "emon/heatpump/"@)
    } else if starts_with(t, "emon/multical/"@) {
        r matches Some(TopicRoute::Multical { column }) && column@ == after(t, "emon/multical/"@)
    } else if starts_with(t, "emon/emonth2_23/"@) {
        r matches Some(TopicRoute::Emonth { column }) && column@ == after(t, "emon/emonth2_23/"@)
    } else if starts_with(t, "emon/sensors/"@) {
        r matches Some(TopicRoute::Sensors { column }) && column@ == after(t, "emon/sensors/"@)
    } else if starts_with(t, "emon/metoffice/"@) {
        r matches Some(TopicRoute::Metoffice { column }) && column@ == after(t, "emon/metoffice/"@)
    } else if starts_with(t, "ebusd/poll/"@) {
        r matches Some(TopicRoute::EbusdPoll { field }) && field@ == after(t, "ebusd/poll/"@)
    } else {
        r is None
    }
}

/// Maps a topic to the table that stores it, or `None` for an unknown prefix.
pub fn topic_route(topic: &str) -> (r: Option<TopicRoute<'_>>)
    ensures
        route_of(r, topic@),
{
    if let Some(device) = strip_prefix(topic, "zigbee2mqtt/") {
        return Some(TopicRoute::ZigbeeTemp { device });
    }
    if let Some(rest) = strip_prefix(topic, "emon/EmonPi2/") {
        return Some(TopicRoute::CtMonitor { source: "EmonPi2", column: rest });
    }
    if let Some(rest) = strip_prefix(topic, "emon/emonpi2_cu/") {
        return Some(TopicRoute::CtMonitor { source: "emonpi2_cu", column: rest });
    }
    if let Some(rest) = strip_prefix(topic, "emon/emontx5_cu/") {
        return Some(TopicRoute::CtMonitor { source: "emontx5_cu", column: rest });
    }
    if let Some(rest) = strip_prefix(topic, "emon/tesla/") {
        return Some(TopicRoute::Tesla { column: rest });
    }
    if let Some(rest) = strip_prefix(topic, "emon/heatpump/") {
        return Some(TopicRoute::Heatpump { column: rest });
    }
    if let Some(rest) = strip_prefix(topic, "emon/multical/") {
        return Some(TopicRoute::Multical { column: rest });
    }
    if let Some(rest) = strip_prefix(topic, "emon/emonth2_23/") {
        return Some(TopicRoute::Emonth { column: rest });
    }
    if let Some(rest) = strip_prefix(topic, "emon/sensors/") {
        return Some(TopicRoute::Sensors { column: rest });
    }
    if let Some(rest) = strip_prefix(topic, "emon/metoffice/") {
        return Some(TopicRoute::Metoffice { column: rest });
    }
    if let Some(field) = strip_prefix(topic, "ebusd/poll/") {
        return Some(TopicRoute::EbusdPoll { field });
    }
    None
}

/// A CT-monitor route names the source between `emon/` and the next `/`, and the column
/// after it: the topic is exactly `emon/<source>/<column>`, and the source holds no `/`.
pub proof fn lemma_ct_route_names_its_source(r: Option<TopicRoute>, t: Seq<char>)
    requires
        route_of(r, t),
    ensures
        r matches Some(TopicRoute::CtMonitor { source, column }) ==> t == "emon/"@ + source@ + "/"@ + column@
            && lacks(source@, '/'),
{
    if let Some(TopicRoute::CtMonitor { source, column }) = r {
        reveal_strlit("emon/");
        reveal_strlit("/");
        reveal_strlit("zigbee2mqtt/");
        if starts_with(t, "zigbee2mqtt/"@) {
            assert(false);
        } else if starts_with(t, "emon/EmonPi2/"@) {
            reveal_strlit("emon/EmonPi2/");
            reveal_strlit("EmonPi2");
            assert(t =~= t.subrange(0, 13) + t.skip(13));
            assert("emon/EmonPi2/"@ =~= "emon/"@ + "EmonPi2"@ + "/"@);
            assert(t =~= "emon/"@ + source@ + "/"@ + column@);
        } else if starts_with(t, "emon/emonpi2_cu/"@) {
            reveal_strlit("emon/emonpi2_cu/");
            reveal_strlit("emonpi2_cu");
            assert(t =~= t.subrange(0, 16) + t.skip(16));
            assert("emon/emonpi2_cu/"@ =~= "emon/"@ + "emonpi2_cu"@ + "/"@);
            assert(t =~= "emon/"@ + source@ + "/"@ + column@);
        } else if starts_with(t, "emon/emontx5_cu/"@) {
            reveal_strlit("emon/emontx5_cu/");
            reveal_strlit("emontx5_cu");
            assert(t =~= t.subrange(0, 16) + t.skip(16));
            assert("emon/emontx5_cu/"@ =~= "emon/"@ + "emontx5_cu"@ + "/"@);
            assert(t =~= "emon/"@ + source@ + "/"@ + column@);
        }
    }
}

/// Field name of a live eBUS topic `ebusd/<circuit>/<field>`: everything after the
/// first `/` that follows the `ebusd/` prefix.
pub open spec fn ebusd_live_field_of(t: Seq<char>) -> Option<Seq<char>> {
    if !starts_with(t, "ebusd/"@) {
        None
    } else {
        let rest = after(t, "ebusd/"@);
        if lacks(rest, '/') {
            None
        } else {
            let i = choose|i: int| crate::text::is_first_index(rest, '/', i);
            Some(rest.skip(i + 1))
        }
    }
}

/// Extracts the field of a live eBUS topic such as `ebusd/hmu/CurrentYieldPower`.
pub fn ebusd_live_field(topic: &str) -> (r: Option<&str>)
    ensures
        r is Some <==> ebusd_live_field_of(topic@) is Some,
        r matches Some(f) ==> f@ == ebusd_live_field_of(topic@).unwrap(),
{
    let rest = strip_prefix(topic, "ebusd/")?;
    let (_circuit, field) = split_once_char(rest, '/')?;
    proof {
        let i = choose|i: int| crate::text::is_first_index(rest@, '/', i);
        let k = choose|k: int|
            #![trigger rest@[k]]
            crate::text::is_first_index(rest@, '/', k) && field@ == rest@.skip(k + 1);
        if i < k {
            assert(rest@[i] != '/');
        } else if k < i {
            assert(rest@[k] != '/');
        }
    }
    Some(field)
}

/// Doubles every `"` so the text can stand inside a quoted SQL identifier.
pub open spec fn escape_quotes(s: Seq<char>) -> Seq<char>
    decreases s.len(),
{
    if s.len() == 0 {
        Seq::empty()
    } else {
        let last = s.last();
        escape_quotes(s.drop_last()) + if last == '"' {
            seq!['"', '"']
        } else {
            seq![last]
        }
    }
}

/// Quotes an SQL identifier: `"` around it, inner quotes doubled.
pub fn quoted_identifier(ident: &str) -> (r: String)
    ensures
        r@ == seq!['"'] + escape_quotes(ident@) + seq!['"'],
{
    let n = ident.unicode_len();
    let mut out = String::from_str("\"");
    proof {
        reveal_strlit("\"");
    }
    let mut i: usize = 0;
    while i < n
        invariant
            n == ident@.len(),
            i <= n,
            out@ == seq!['"'] + escape_quotes(ident@.take(i as int)),
        decreases n - i,
    {
        let c = ident.get_char(i);
        let piece = ident.substring_char(i, i + 1);
        assert(piece@ =~= seq![c]);
        if c == '"' {
            out.append("\"\"");
            proof {
                reveal_strlit("\"\"");
            }
        } else {
            out.append(piece);
        }
        assert(ident@.take(i + 1).drop_last() =~= ident@.take(i as int));
        i = i + 1;
        assert(out@ =~= seq!['"'] + escape_quotes(ident@.take(i as int)));
    }
    out.append("\"");
    assert(ident@.take(n as int) =~= ident@);
    out
}

/// An identifier quoted for SQL.
pub open spec fn quoted(ident: Seq<char>) -> Seq<char> {
    seq!['"'] + escape_quotes(ident) + seq!['"']
}

/// The PostgreSQL statement for five-minute room readings of a routed topic: Zigbee and
/// eBUS statements take the device or field as `$1` and the window as `$2`, `$3`; the
/// emonTH statement names its column and takes the window as `$1`, `$2`. Other routes hold
/// no room readings.
pub open spec fn room_topic_text(route: TopicRoute) -> Option<Seq<char>> {
    match route {
        TopicRoute::ZigbeeTemp { .. } => Some(
            "SELECT time_bucket(INTERVAL '5 minutes', time) AS bucket, AVG(temperature) AS value FROM zigbee WHERE device = $1 AND time >= $2 AND time < $3 AND temperature IS NOT NULL GROUP BY bucket ORDER BY bucket"@,
        ),
        TopicRoute::Emonth { column } => Some(
            "SELECT time_bucket(INTERVAL '5 minutes', time) AS bucket, AVG("@ + quoted(column@)
                + ") AS value FROM emonth WHERE time >= $1 AND time < $2 AND "@ + quoted(column@)
                + " IS NOT NULL GROUP BY bucket ORDER BY bucket"@,
        ),
        TopicRoute::EbusdPoll { .. } => Some(
            "SELECT time_bucket(INTERVAL '5 minutes', time) AS bucket, AVG(value) AS value FROM ebusd_poll WHERE field = $1 AND time >= $2 AND time < $3 AND value IS NOT NULL GROUP BY bucket ORDER BY bucket"@,
        ),
        _ => None,
    }
}

/// The statement reading a room sensor's temperatures, if its route holds them.
pub fn room_topic_sql(route: &TopicRoute) -> (r: Option<String>)
    ensures
        match r {
            Some(s) => room_topic_text(*route) == Some(s@),
            None => room_topic_text(*route) is None,
        },
{
    match route {
        TopicRoute::ZigbeeTemp { .. } => Some(
            String::from_str(
                "SELECT time_bucket(INTERVAL '5 minutes', time) AS bucket, AVG(temperature) AS value FROM zigbee WHERE device = $1 AND time >= $2 AND time < $3 AND temperature IS NOT NULL GROUP BY bucket ORDER BY bucket",
            ),
        ),
        TopicRoute::Emonth { column } => {
            let q = quoted_identifier(column);
            let mut s = String::from_str("SELECT time_bucket(INTERVAL '5 minutes', time) AS bucket, AVG(");
            s.append(q.as_str());
            s.append(") AS value FROM emonth WHERE time >= $1 AND time < $2 AND ");
            s.append(q.as_str());
            s.append(" IS NOT NULL GROUP BY bucket ORDER BY bucket");
            Some(s)
        },
        TopicRoute::EbusdPoll { .. } => Some(
            String::from_str(
                "SELECT time_bucket(INTERVAL '5 minutes', time) AS bucket, AVG(value) AS value FROM ebusd_poll WHERE field = $1 AND time >= $2 AND time < $3 AND value IS NOT NULL GROUP BY bucket ORDER BY bucket",
            ),
        ),
        _ => None,
    }
}

} // verus!
