use heatpump_analysis::dhw::{inflection_category, InflectionCategory};
use heatpump_analysis::draws::{dhw_event_spans, DrawSpan, CHARGE_MIN_SECONDS};
use heatpump_analysis::flux::FluxRow;
use heatpump_analysis::samples::{
    naive_cut_fits, row_time_text, row_value_text, series_time, series_time_texts, z_as_utc_text,
};
use heatpump_analysis::series::build_room_series;
use heatpump_analysis::time::{hourly_time, parse_dt, Timestamp};

fn row(cells: &[(&str, &str)]) -> FluxRow {
    let mut r = FluxRow::new();
    for (k, v) in cells {
        r.insert(k.to_string(), v.to_string());
    }
    r
}

fn numeric_samples(rows: &[FluxRow]) -> Vec<(Timestamp, f64)> {
    series_time_texts(rows)
        .into_iter()
        .filter_map(|(t, v)| v.parse::<f64>().ok().map(|v| (t, v)))
        .collect()
}

fn at(text: &str) -> Timestamp {
    parse_dt(text).unwrap()
}

#[test]
fn parse_ts_val_handles_rfc3339_and_naive() {
    let rows = vec![
        row(&[("_time", "2026-04-10T07:00:00+00:00"), ("_value", "42.5")]),
        row(&[("_time", "2026-04-10T08:00:00Z"), ("_value", "43.0")]),
        row(&[("time", "2026-04-10T09:00:00+00:00"), ("value", "44.0")]),
        row(&[("_time", "2026-04-10T10:00:00+00:00"), ("_value", "nope")]),
    ];
    let result = numeric_samples(&rows);
    assert_eq!(result.len(), 3);
    assert!((result[0].1 - 42.5).abs() < 0.01);
    assert!((result[1].1 - 43.0).abs() < 0.01);
    assert!((result[2].1 - 44.0).abs() < 0.01);
}

#[test]
fn parse_ts_val_naive_pg_format() {
    let rows = vec![row(&[("_time", "2026-04-10T07:00:00"), ("_value", "42.5")])];
    let result = numeric_samples(&rows);
    assert_eq!(result.len(), 1, "Naive ISO timestamp should parse via fallback");
    assert!((result[0].1 - 42.5).abs() < 0.01);
}

#[test]
fn series_time_reads_each_form() {
    let rfc = series_time("2026-04-10T07:00:00+01:00").unwrap();
    assert_eq!((rfc.secs, rfc.offset), (at("2026-04-10T06:00:00Z").secs, 3600));
    let zulu = series_time("2026-04-10T08:00:00Z").unwrap();
    assert_eq!(zulu, at("2026-04-10T08:00:00+00:00"));
    let naive = series_time("2026-04-10T07:00:00").unwrap();
    assert_eq!(naive, Timestamp { secs: at("2026-04-10T07:00:00Z").secs, nanos: 0, offset: 0 });
    // Only the first 19 bytes are read as a naive time.
    let long = series_time("2026-04-10T07:00:00 local").unwrap();
    assert_eq!(long.secs, at("2026-04-10T07:00:00Z").secs);
    assert_eq!(series_time("yesterday"), None);
    assert_eq!(z_as_utc_text("aZbZ"), "a+00:00b+00:00");
}

#[test]
fn naive_cut_checks_the_byte_boundary() {
    assert!(naive_cut_fits("short"));
    assert!(naive_cut_fits("2026-04-10T07:00:00é"));
    assert!(!naive_cut_fits("2026-04-10T07:00:0éé"));
}

#[test]
fn sample_rows_pick_underscored_columns_first() {
    let r = row(&[("time", "a"), ("_time", "b"), ("value", "1"), ("_value", "2")]);
    assert_eq!(row_time_text(&r).map(|s| s.as_str()), Some("b"));
    assert_eq!(row_value_text(&r).map(|s| s.as_str()), Some("2"));
    let rows = vec![
        row(&[("_time", "2026-04-10T07:00:00Z")]),
        row(&[("_value", "1")]),
        row(&[("_time", "bad"), ("_value", "1")]),
        row(&[("_time", "2026-04-10T07:00:10Z"), ("_value", "x")]),
    ];
    let out = series_time_texts(&rows);
    assert_eq!(out.len(), 1);
    assert_eq!(out[0].1, "x");
}

#[test]
fn hourly_weather_times_read_as_utc() {
    let t = hourly_time("2026-01-15T10:00").unwrap();
    assert_eq!(t, Timestamp { secs: at("2026-01-15T10:00:00Z").secs, nanos: 0, offset: 0 });
    assert_eq!(hourly_time("2026-01-15T10:00:00Z"), None);
    assert_eq!(hourly_time("noon"), None);
}

#[test]
fn inflection_category_depends_on_charge_and_t1() {
    let full = |crossover: bool, t1_end: f64| crossover && t1_end >= 43.0;
    assert_eq!(inflection_category(true, full(true, 44.0)), InflectionCategory::Capacity);
    assert_eq!(inflection_category(true, full(false, 44.0)), InflectionCategory::Partial);
    assert_eq!(inflection_category(true, full(true, 42.9)), InflectionCategory::Partial);
    assert_eq!(inflection_category(false, full(true, 44.0)), InflectionCategory::LowerBound);
}

#[test]
fn build_room_series_maps_known_topics_and_sorts_samples() {
    let dt = |h: u32, m: u32| at(&format!("2026-04-10T{h:02}:{m:02}:00+00:00"));
    let leather_topic = "emon/emonth2_23/temperature".to_string();
    let office_topic = "zigbee2mqtt/office".to_string();
    let rooms = vec![
        ("Leather".to_string(), leather_topic.clone()),
        ("Office".to_string(), office_topic.clone()),
    ];
    let rows = vec![
        (dt(7, 30), leather_topic.clone(), 20.0),
        (dt(7, 0), leather_topic, 19.0),
        (dt(7, 15), office_topic, 18.5),
        (dt(7, 45), "unknown/topic".to_string(), 99.0),
    ];
    let series = build_room_series(&rows, &rooms);
    let leather = &series.iter().find(|(n, _)| n == "Leather").unwrap().1;
    let office = &series.iter().find(|(n, _)| n == "Office").unwrap().1;
    assert_eq!(leather.len(), 2);
    assert_eq!(leather[0].0, dt(7, 0));
    assert_eq!(leather[1].0, dt(7, 30));
    assert_eq!(office.len(), 1);
    assert!(!series.iter().flat_map(|(_, s)| s.iter()).any(|(_, v)| (*v - 99.0f64).abs() < 1e-9));
}

#[test]
fn event_spans_keep_long_charges_and_link_draws() {
    let t0: i64 = 1_775_023_200;
    let charging = |from: i64, to: i64| move |t: i64| t >= t0 + from && t < t0 + to;
    let first = charging(0, 400);
    let second = charging(600, 700);
    let charge_steps: Vec<(i64, bool)> =
        (0..100).map(|i| t0 + 10 * i).map(|t| (t, first(t) || second(t))).collect();
    let draw_steps: Vec<(i64, bool, bool)> = (0..100)
        .map(|i| t0 + 10 * i)
        .map(|t| {
            let drawing = (t >= t0 + 300 && t < t0 + 350) || (t >= t0 + 800 && t < t0 + 900);
            (t, drawing, first(t) || second(t))
        })
        .collect();
    let (charges, draws) = dhw_event_spans(&charge_steps, Some(t0), &draw_steps);
    // The second charge lasted 100 s, under the minimum.
    assert_eq!(charges, vec![(t0, t0 + 400)]);
    assert!(charges[0].1 - charges[0].0 >= CHARGE_MIN_SECONDS);
    assert_eq!(
        draws,
        vec![
            DrawSpan { start: t0 + 300, end: t0 + 350, during_charge: true, preceding_charge: None, previous_end: None },
            DrawSpan {
                start: t0 + 800,
                end: t0 + 900,
                during_charge: false,
                preceding_charge: Some(0),
                previous_end: Some(t0 + 350),
            },
        ]
    );
    // Without a top-sensor reading before a charge began, the charge is not kept.
    let (none, _) = dhw_event_spans(&charge_steps, Some(t0 + 5), &draw_steps);
    assert!(none.is_empty());
    let (none, _) = dhw_event_spans(&charge_steps, None, &draw_steps);
    assert!(none.is_empty());
}
