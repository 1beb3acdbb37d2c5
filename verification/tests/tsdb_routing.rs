use heatpump_analysis::time::parse_dt;
use heatpump_analysis::topics::{ebusd_live_field, topic_route, TopicRoute};

#[test]
fn tsdb_topic_field_name_routing() {
    let zigbee_topic = "zigbee2mqtt/Leather";
    let emon_topic = "emon/emonth2_23/temperature";
    let ebusd_topic = "ebusd/poll/OutsideTemp";

    let is_value_field =
        zigbee_topic == "emon/emonth2_23/temperature" || zigbee_topic.starts_with("ebusd/poll/");
    assert!(!is_value_field);

    let is_value_field =
        emon_topic == "emon/emonth2_23/temperature" || emon_topic.starts_with("ebusd/poll/");
    assert!(is_value_field);

    let is_value_field =
        ebusd_topic == "emon/emonth2_23/temperature" || ebusd_topic.starts_with("ebusd/poll/");
    assert!(is_value_field);
}

#[test]
fn tsdb_topic_to_table_mapping() {
    assert_eq!(
        topic_route("zigbee2mqtt/Leather"),
        Some(TopicRoute::ZigbeeTemp { device: "Leather" })
    );
    assert_eq!(
        topic_route("emon/emonth2_23/temperature"),
        Some(TopicRoute::Emonth { column: "temperature" })
    );
    assert_eq!(
        topic_route("ebusd/poll/OutsideTemp"),
        Some(TopicRoute::EbusdPoll { field: "OutsideTemp" })
    );
    assert_eq!(
        topic_route("emon/EmonPi2/P3"),
        Some(TopicRoute::CtMonitor { source: "EmonPi2", column: "P3" })
    );
    assert_eq!(
        topic_route("emon/multical/dhw_flow"),
        Some(TopicRoute::Multical { column: "dhw_flow" })
    );
    assert_eq!(
        topic_route("emon/heatpump/electric_Power"),
        Some(TopicRoute::Heatpump { column: "electric_Power" })
    );
    assert_eq!(
        topic_route("emon/tesla/solar_W"),
        Some(TopicRoute::Tesla { column: "solar_W" })
    );
}

#[test]
fn tsdb_live_ebusd_topic_to_field_name() {
    assert_eq!(ebusd_live_field("ebusd/hmu/CurrentYieldPower"), Some("CurrentYieldPower"));
    assert_eq!(ebusd_live_field("ebusd/700/HwcSFMode"), Some("HwcSFMode"));
    assert_eq!(ebusd_live_field("ebusd"), None);
}

#[test]
fn tsdb_pv_topic_to_ct_monitor_column() {
    let topic = "emon/EmonPi2/P3";
    let parts: Vec<&str> = topic.splitn(3, '/').collect();
    assert_eq!(parts, vec!["emon", "EmonPi2", "P3"]);
}

#[test]
fn tsdb_timestamp_microsecond_truncation_safe() {
    let nano_ts: i64 = 1768567800_000_000_000;
    let micro_ts: i64 = nano_ts / 1000;
    let seconds_nano = nano_ts / 1_000_000_000;
    let seconds_micro = micro_ts / 1_000_000;
    assert_eq!(seconds_nano, seconds_micro);
}

#[test]
fn tsdb_timestamptz_format_parsing() {
    let rfc3339 = parse_dt("2026-01-15T10:30:00+00:00").unwrap();
    let pg_basic = parse_dt("2026-01-15 10:30:00+00").unwrap();
    let pg_fractional = parse_dt("2026-01-15 10:30:00.123456+00").unwrap();
    let pg_offset = parse_dt("2026-01-15 11:30:00+01").unwrap();

    assert_eq!(rfc3339.timestamp(), 1768473000);
    assert_eq!(pg_basic.timestamp(), rfc3339.timestamp());
    assert_eq!(pg_offset.timestamp(), rfc3339.timestamp());
    assert_eq!(pg_fractional.timestamp(), rfc3339.timestamp());
    assert_eq!(pg_fractional.timestamp_subsec_micros(), 123_456);
}
