use heatpump_analysis::flux::parse_influx_annotated_csv;
use heatpump_analysis::influx::{humidity_flux, mwt_flux, time_value_cells};
use heatpump_analysis::order::time_order;
use heatpump_analysis::error::ThermalError;
use heatpump_analysis::time::{parse_dt, Timestamp};
use heatpump_analysis::topics::{ebusd_live_field, topic_route, TopicRoute};

#[test]
fn parse_csv_empty_input() {
    let rows = parse_influx_annotated_csv("").unwrap();
    assert!(rows.is_empty());
}

#[test]
fn parse_csv_skips_annotations() {
    let csv = "\
#datatype,string,long,dateTime:RFC3339,double,string
#group,false,false,false,false,true
#default,_result,,,,
,result,table,_time,_value,topic
,_result,0,2026-01-15T10:00:00Z,21.5,zigbee2mqtt/Leather
,_result,0,2026-01-15T10:05:00Z,21.6,zigbee2mqtt/Leather
";
    let rows = parse_influx_annotated_csv(csv).unwrap();
    assert_eq!(rows.len(), 2);
    assert_eq!(rows[0].get("_value").unwrap(), "21.5");
    assert_eq!(rows[0].get("topic").unwrap(), "zigbee2mqtt/Leather");
    assert_eq!(rows[1].get("_value").unwrap(), "21.6");
}

#[test]
fn parse_csv_multi_table() {
    let csv = "\
#datatype,string,long,dateTime:RFC3339,double,string
#group,false,false,false,false,true
,result,table,_time,_value,topic
,_result,0,2026-01-15T10:00:00Z,21.5,zigbee2mqtt/Leather

#datatype,string,long,dateTime:RFC3339,double,string
#group,false,false,false,false,true
,result,table,_time,_value,topic
,_result,1,2026-01-15T10:00:00Z,19.3,zigbee2mqtt/Aldora
";
    let rows = parse_influx_annotated_csv(csv).unwrap();
    assert_eq!(rows.len(), 2);
    assert_eq!(rows[0].get("topic").unwrap(), "zigbee2mqtt/Leather");
    assert_eq!(rows[1].get("topic").unwrap(), "zigbee2mqtt/Aldora");
}

#[test]
fn parse_csv_skips_duplicate_header_rows() {
    let csv = "\
,result,table,_time,_value
,_result,0,2026-01-15T10:00:00Z,21.5
,result,table,_time,_value
,_result,1,2026-01-15T10:05:00Z,19.3
";
    let rows = parse_influx_annotated_csv(csv).unwrap();
    assert_eq!(rows.len(), 2);
    assert_eq!(rows[0].get("_value").unwrap(), "21.5");
    assert_eq!(rows[1].get("_value").unwrap(), "19.3");
}

#[test]
fn parse_csv_skips_empty_key_columns() {
    let csv = "\
,result,table,_time,_value
,_result,0,2026-01-15T10:00:00Z,42.0
";
    let rows = parse_influx_annotated_csv(csv).unwrap();
    assert_eq!(rows.len(), 1);
    assert!(!rows[0].contains_key(""));
    assert_eq!(rows[0].get("_value").unwrap(), "42.0");
}

#[test]
fn parse_csv_annotations_only() {
    let csv = "\
#datatype,string,long
#group,false,false
#default,_result,
";
    let rows = parse_influx_annotated_csv(csv).unwrap();
    assert!(rows.is_empty());
}

#[test]
fn parse_dt_rfc3339_variants() {
    let dt = parse_dt("2026-01-15T10:30:00Z").unwrap();
    assert_eq!(dt.timestamp(), 1768473000);

    let dt2 = parse_dt("2026-01-15T10:30:00+00:00").unwrap();
    assert_eq!(dt.timestamp(), dt2.timestamp());

    let dt3 = parse_dt("2026-01-15T11:30:00+01:00").unwrap();
    assert_eq!(dt.timestamp(), dt3.timestamp());
}

#[test]
fn parse_dt_rejects_bad_input() {
    assert!(parse_dt("2026-01-15 10:30:00").is_err());
    assert!(parse_dt("not a date").is_err());
    assert!(parse_dt("").is_err());
}

#[test]
fn missing_column_errors() {
    let csv = "\
,result,table,_time,value
,_result,0,2026-01-15T10:00:00Z,99.9
";
    let rows = parse_influx_annotated_csv(csv).unwrap();
    let err = time_value_cells(&rows[0], "outside row", "outside _value").unwrap_err();

    match err {
        ThermalError::MissingColumn { column, context } => {
            assert_eq!(column, "_value");
            assert_eq!(context, "outside _value");
        }
        other => panic!("expected MissingColumn error, got {other:?}"),
    }
}

#[test]
fn influx_topic_field_name_routing() {
    let zigbee_topic = "zigbee2mqtt/Leather";
    let emon_topic = "emon/emonth2_23/temperature";
    let ebusd_topic = "ebusd/poll/OutsideTemp";

    let is_value_field =
        zigbee_topic == "emon/emonth2_23/temperature" || zigbee_topic.starts_with("ebusd/poll/");
    assert!(!is_value_field, "Zigbee topics should use 'temperature' field");

    let is_value_field =
        emon_topic == "emon/emonth2_23/temperature" || emon_topic.starts_with("ebusd/poll/");
    assert!(is_value_field, "emonth2_23 should use 'value' field");

    let is_value_field =
        ebusd_topic == "emon/emonth2_23/temperature" || ebusd_topic.starts_with("ebusd/poll/");
    assert!(is_value_field, "ebusd/poll should use 'value' field");
}

#[test]
fn influx_topic_to_table_mapping() {
    assert_eq!(
        topic_route("zigbee2mqtt/Leather"),
        Some(TopicRoute::ZigbeeTemp { device: "Leather" })
    );
    assert_eq!(
        topic_route("zigbee2mqtt/Aldora"),
        Some(TopicRoute::ZigbeeTemp { device: "Aldora" })
    );
    assert_eq!(
        topic_route("emon/emonth2_23/temperature"),
        Some(TopicRoute::Emonth { column: "temperature" })
    );
    assert_eq!(
        topic_route("ebusd/poll/OutsideTemp"),
        Some(TopicRoute::EbusdPoll { field: "OutsideTemp" })
    );
    assert_eq!(
        topic_route("emon/EmonPi2/P3"),
        Some(TopicRoute::CtMonitor { source: "EmonPi2", column: "P3" })
    );
    assert_eq!(
        topic_route("ebusd/poll/BuildingCircuitFlow"),
        Some(TopicRoute::EbusdPoll { field: "BuildingCircuitFlow" })
    );
    assert_eq!(
        topic_route("ebusd/poll/FlowTemp"),
        Some(TopicRoute::EbusdPoll { field: "FlowTemp" })
    );
    assert_eq!(
        topic_route("ebusd/poll/ReturnTemp"),
        Some(TopicRoute::EbusdPoll { field: "ReturnTemp" })
    );
    assert_eq!(
        topic_route("ebusd/poll/StatuscodeNum"),
        Some(TopicRoute::EbusdPoll { field: "StatuscodeNum" })
    );
    assert_eq!(
        topic_route("emon/multical/dhw_flow"),
        Some(TopicRoute::Multical { column: "dhw_flow" })
    );
    assert_eq!(
        topic_route("emon/heatpump/electric_Power"),
        Some(TopicRoute::Heatpump { column: "electric_Power" })
    );
    assert_eq!(
        topic_route("emon/tesla/solar_W"),
        Some(TopicRoute::Tesla { column: "solar_W" })
    );
}

#[test]
fn influx_live_ebusd_topic_to_field_name() {
    assert_eq!(ebusd_live_field("ebusd/hmu/CurrentYieldPower"), Some("CurrentYieldPower"));
    assert_eq!(ebusd_live_field("ebusd/700/HwcSFMode"), Some("HwcSFMode"));
    assert_eq!(ebusd_live_field("ebusd"), None);
}

#[test]
fn influx_pv_topic_to_ct_monitor_column() {
    let topic = "emon/EmonPi2/P3";
    let parts: Vec<&str> = topic.splitn(3, '/').collect();
    assert_eq!(parts.len(), 3);
    assert_eq!(parts[0], "emon");
    assert_eq!(parts[1], "EmonPi2");
    assert_eq!(parts[2], "P3");
}

#[test]
fn influx_timestamp_microsecond_truncation_safe() {
    let nano_ts: i64 = 1768567800_000_000_000;
    let micro_ts: i64 = nano_ts / 1000;
    let seconds_nano = nano_ts / 1_000_000_000;
    let seconds_micro = micro_ts / 1_000_000;
    assert_eq!(seconds_nano, seconds_micro, "Truncation must preserve seconds");
}

#[test]
fn influx_timestamptz_format_parsing() {
    let rfc3339 = parse_dt("2026-01-15T10:30:00+00:00").unwrap();
    let pg_basic = parse_dt("2026-01-15 10:30:00+00").unwrap();
    let pg_fractional = parse_dt("2026-01-15 10:30:00.123456+00").unwrap();
    let pg_offset = parse_dt("2026-01-15 11:30:00+01").unwrap();

    assert_eq!(rfc3339.timestamp(), 1768473000);
    assert_eq!(pg_basic.timestamp(), rfc3339.timestamp());
    assert_eq!(pg_offset.timestamp(), rfc3339.timestamp());
    assert_eq!(pg_fractional.timestamp(), rfc3339.timestamp());
    assert_eq!(pg_fractional.timestamp_subsec_micros(), 123_456);
}

#[test]
fn multi_topic_condition_builder() {
    let sensor_topics: &[&str] = &[
        "zigbee2mqtt/Leather",
        "zigbee2mqtt/Aldora",
        "emon/emonth2_23/temperature",
        "ebusd/poll/OutsideTemp",
    ];

    let mut conditions = Vec::new();
    for t in sensor_topics {
        if *t == "emon/emonth2_23/temperature" || t.starts_with("ebusd/poll/") {
            conditions.push(format!("(r.topic == \"{}\" and r._field == \"value\")", t));
        } else {
            conditions.push(format!("(r.topic == \"{}\" and r._field == \"temperature\")", t));
        }
    }

    let clause = conditions.join(" or ");

    assert!(clause.contains("zigbee2mqtt/Leather\" and r._field == \"temperature\""));
    assert!(clause.contains("zigbee2mqtt/Aldora\" and r._field == \"temperature\""));
    assert!(clause.contains("emon/emonth2_23/temperature\" and r._field == \"value\""));
    assert!(clause.contains("ebusd/poll/OutsideTemp\" and r._field == \"value\""));
    assert_eq!(conditions.len(), 4);
}

#[test]
fn wide_row_null_columns_parsed() {
    let csv = "\
,result,table,_time,_value,topic
,_result,0,2026-01-15T10:00:00Z,-1500.0,emon/EmonPi2/P3
,_result,0,2026-01-15T10:05:00Z,,emon/EmonPi2/P7
";
    let rows = parse_influx_annotated_csv(csv).unwrap();
    assert_eq!(rows.len(), 2);

    let p3_val: f64 = rows[0].get("_value").unwrap().parse().unwrap();
    assert!((p3_val - (-1500.0)).abs() < 1e-9);

    let p7_val_str = rows[1].get("_value").unwrap();
    assert!(
        p7_val_str.is_empty() || p7_val_str.parse::<f64>().is_err(),
        "Empty/NULL _value from wide-row should not parse as a valid float"
    );
}

#[test]
fn single_value_csv_parsing() {
    let csv = "\
#datatype,string,long,dateTime:RFC3339,double
#group,false,false,false,false
#default,_result,,,
,result,table,_time,_value
,_result,0,2026-01-15T10:30:00Z,21.5
";
    let rows = parse_influx_annotated_csv(csv).unwrap();
    assert_eq!(rows.len(), 1);
    let val: f64 = rows[0].get("_value").unwrap().parse().unwrap();
    assert!((val - 21.5).abs() < 1e-9);
}

#[test]
fn empty_last_query_result() {
    let csv = "\
#datatype,string,long,dateTime:RFC3339,double
#group,false,false,false,false
#default,_result,,,
,result,table,_time,_value

";
    let rows = parse_influx_annotated_csv(csv).unwrap();
    assert!(rows.is_empty(), "Empty last() result should produce zero rows");
}

fn in_time_order<T: Clone>(rows: &[(Timestamp, T)]) -> Vec<(Timestamp, T)> {
    let times: Vec<Timestamp> = rows.iter().map(|r| r.0).collect();
    time_order(&times).into_iter().map(|i| rows[i].clone()).collect()
}

#[test]
fn room_temps_csv_contract() {
    let csv = "\
,result,table,_time,_value,topic
,_result,0,2026-01-15T10:00:00Z,21.5,zigbee2mqtt/Leather
,_result,0,2026-01-15T10:05:00Z,21.6,zigbee2mqtt/Leather
,_result,1,2026-01-15T10:00:00Z,19.3,zigbee2mqtt/Aldora
";
    let rows = parse_influx_annotated_csv(csv).unwrap();

    let mut out: Vec<(Timestamp, (String, f64))> = Vec::new();
    for row in &rows {
        let t = parse_dt(row.get("_time").unwrap()).unwrap();
        let topic = row.get("topic").unwrap().to_string();
        let value: f64 = row.get("_value").unwrap().parse().unwrap();
        out.push((t, (topic, value)));
    }
    let out = in_time_order(&out);

    assert_eq!(out.len(), 3);
    assert_eq!((out[0].1).0, "zigbee2mqtt/Leather");
    assert!(((out[0].1).1 - 21.5).abs() < 1e-9);
    assert_eq!((out[1].1).0, "zigbee2mqtt/Aldora");
    assert!(((out[1].1).1 - 19.3).abs() < 1e-9);
    assert_eq!((out[2].1).0, "zigbee2mqtt/Leather");
    assert!(((out[2].1).1 - 21.6).abs() < 1e-9);
}

#[test]
fn outside_temp_csv_contract() {
    let csv = "\
,result,table,_time,_value
,_result,0,2026-01-15T10:05:00Z,5.2
,_result,0,2026-01-15T10:00:00Z,4.8
";
    let rows = parse_influx_annotated_csv(csv).unwrap();

    let mut out: Vec<(Timestamp, f64)> = Vec::new();
    for row in &rows {
        let (t, v) = time_value_cells(row, "outside row", "outside _value").unwrap();
        out.push((t, v.parse().unwrap()));
    }
    let out = in_time_order(&out);

    assert_eq!(out.len(), 2);
    assert!((out[0].1 - 4.8).abs() < 1e-9);
    assert!((out[1].1 - 5.2).abs() < 1e-9);
}

#[test]
fn status_codes_csv_contract() {
    let csv = "\
,result,table,_time,_value
,_result,0,2026-01-15T10:00:00Z,34.0
,_result,0,2026-01-15T10:01:00Z,100.0
";
    let rows = parse_influx_annotated_csv(csv).unwrap();

    let mut out: Vec<(Timestamp, i32)> = Vec::new();
    for row in &rows {
        let t = parse_dt(row.get("_time").unwrap()).unwrap();
        let value_f: f64 = row.get("_value").unwrap().parse().unwrap();
        out.push((t, value_f.round() as i32));
    }
    let out = in_time_order(&out);

    assert_eq!(out.len(), 2);
    assert_eq!(out[0].1, 34);
    assert_eq!(out[1].1, 100);
}

#[test]
fn mwt_csv_contract() {
    let csv = "\
,result,table,_time,_value
,_result,0,2026-01-15T10:00:00Z,32.5
,_result,0,2026-01-15T10:05:00Z,33.1
";
    let rows = parse_influx_annotated_csv(csv).unwrap();

    let mut out: Vec<(Timestamp, f64)> = Vec::new();
    for row in &rows {
        let t = parse_dt(row.get("_time").unwrap()).unwrap();
        let value: f64 = row.get("_value").unwrap().parse().unwrap();
        out.push((t, value));
    }
    let out = in_time_order(&out);

    assert_eq!(out.len(), 2);
    assert!((out[0].1 - 32.5).abs() < 1e-9);
    assert!((out[1].1 - 33.1).abs() < 1e-9);
}

#[test]
fn humidity_query_skips_emonth2() {
    let sensor_topics: &[&str] =
        &["zigbee2mqtt/Leather", "emon/emonth2_23/temperature", "zigbee2mqtt/Aldora"];

    let mut conditions = Vec::new();
    for t in sensor_topics {
        if *t == "emon/emonth2_23/temperature" {
            continue;
        }
        conditions.push(format!("topic={t}"));
    }

    assert_eq!(conditions.len(), 2, "emonth2_23 must be skipped for humidity");
    assert!(conditions[0].contains("Leather"));
    assert!(conditions[1].contains("Aldora"));

    let start = parse_dt("2026-01-15T10:00:00Z").unwrap();
    let flux = humidity_flux("energy", sensor_topics, &start, &start).unwrap();
    assert!(flux.contains(
        "(r.topic == \"zigbee2mqtt/Leather\" and r._field == \"humidity\") or (r.topic == \"zigbee2mqtt/Aldora\" and r._field == \"humidity\")"
    ));
    assert!(!flux.contains("emonth2_23"));
}

#[test]
fn humidity_field_name_contract() {
    let topic = "zigbee2mqtt/Leather";
    let field = "humidity";
    let condition = format!("(r.topic == \"{topic}\" and r._field == \"{field}\")");
    assert!(condition.contains("humidity"), "humidity query must use humidity field");
}

#[test]
fn parse_csv_tables_bring_their_own_headers() {
    let csv = ",result,table,_time,_value\n,_result,0,2026-01-15T10:00:00Z,21.5\n\n,result,table,_time,_value,topic\n,_result,1,2026-01-15T10:00:00Z,19.3,zigbee2mqtt/Aldora\n";
    let rows = parse_influx_annotated_csv(csv).unwrap();
    assert_eq!(rows.len(), 2);
    assert_eq!(rows[0].get("_value").unwrap(), "21.5");
    assert!(!rows[0].contains_key("topic"));
    assert_eq!(rows[1].get("_value").unwrap(), "19.3");
    assert_eq!(rows[1].get("topic").unwrap(), "zigbee2mqtt/Aldora");
}

#[test]
fn parse_csv_crlf_tables_and_annotation_reset() {
    let csv = ",result,a\r\n,_result,1\r\n\r\n,result,b\r\n,_result,2\r\n#datatype,string,long\r\n,result,c\r\n,_result,3\r\n";
    let rows = parse_influx_annotated_csv(csv).unwrap();
    assert_eq!(rows.len(), 3);
    assert_eq!(rows[0].get("a").unwrap(), "1");
    assert_eq!(rows[1].get("b").unwrap(), "2");
    assert_eq!(rows[2].get("c").unwrap(), "3");
    assert!(!rows[2].contains_key("b"));
}

#[test]
fn parse_csv_blank_line_inside_quotes_stays_in_table() {
    let csv = ",result,note,_value\n,_result,\"first\n\nsecond\",4.5\n,_result,plain,5.5\n";
    let rows = parse_influx_annotated_csv(csv).unwrap();
    assert_eq!(rows.len(), 2);
    assert_eq!(rows[0].get("note").unwrap(), "first\n\nsecond");
    assert_eq!(rows[1].get("_value").unwrap(), "5.5");
}

#[test]
fn mwt_script_averages_flow_and_return() {
    let start = parse_dt("2026-01-15T10:00:00Z").unwrap();
    let stop = parse_dt("2026-01-15T12:00:00Z").unwrap();
    let flux = mwt_flux("energy", &start, &stop);
    assert!(flux.starts_with("flow = from(bucket: \"energy\")\n  |> range(start: 2026-01-15T10:00:00+00:00, stop: 2026-01-15T12:00:00+00:00)\n  |> filter(fn: (r) => r.topic == \"ebusd/poll/FlowTemp\")"));
    assert!(flux.contains("\n\nret = from(bucket: \"energy\")\n  |> range(start: 2026-01-15T10:00:00+00:00, stop: 2026-01-15T12:00:00+00:00)\n  |> filter(fn: (r) => r.topic == \"ebusd/poll/ReturnTemp\")"));
    assert!(flux.ends_with("|> map(fn: (r) => ({ r with _value: (r.flow + r[\"return\"]) / 2.0 }))\n  |> keep(columns: [\"_time\", \"_value\"])"));
}
