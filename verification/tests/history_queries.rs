use heatpump_analysis::charges::{
    charge_boundary_specs, charge_key, charge_summary_specs, hwc_sfmode_load_stuck, no_crossover,
    usize_text, window_query_flux,
};
use heatpump_analysis::dhw::{pg_series_sql, MeasurementRoute};
use heatpump_analysis::flux::FluxRow;
use heatpump_analysis::error::ThermalError;
use heatpump_analysis::periods::Period;
use heatpump_analysis::queries::{
    above_threshold_flux, below_threshold_flux, controller_rows_flux, first_point_cells,
    first_usable_value, last_value_flux, max_divergence_flux, measurement_filter, plain_measurement_filter, summary_inputs, topic_filter,
};
use heatpump_analysis::time::{epoch_to_dt, Timestamp};
use heatpump_analysis::topics::{room_topic_sql, topic_route};

// 2026-01-15T10:30:00Z
const T0: i64 = 1_768_473_000;

fn utc(secs: i64) -> Timestamp {
    epoch_to_dt(secs)
}

fn row(cells: &[(&str, &str)]) -> FluxRow {
    let mut r = FluxRow::new();
    for (k, v) in cells {
        r.insert(k.to_string(), v.to_string());
    }
    r
}

#[test]
fn decimal_indices() {
    assert_eq!(usize_text(0), "0");
    assert_eq!(usize_text(7), "7");
    assert_eq!(usize_text(10), "10");
    assert_eq!(usize_text(1234567), "1234567");
    assert_eq!(charge_key(12, "_t1"), "charge_12_t1");
}

#[test]
fn charge_summary_queries_per_charge() {
    let periods = vec![Period { start: utc(T0), end: utc(T0 + 600) }];
    let specs = charge_summary_specs("energy", &periods);
    assert_eq!(specs.len(), 2);
    assert_eq!(specs[0].0, "charge_0_t1");
    assert_eq!(specs[0].1, "charge_0_t1");
    assert_eq!(
        specs[0].2,
        "from(bucket: \"energy\") |> range(start: 2026-01-15T10:30:00+00:00, stop: 2026-01-15T10:40:00+00:00) |> filter(fn: (r) => r._measurement == \"emon\" and r.field == \"dhw_t1\") |> keep(columns: [\"_time\", \"_value\"])"
    );
    assert_eq!(specs[1].0, "charge_0_hwc");
    assert!(specs[1].2.contains("r.field == \"HwcStorageTemp\""));
}

#[test]
fn charge_boundary_queries_look_a_quarter_hour_around() {
    let periods = vec![
        Period { start: utc(T0), end: utc(T0 + 600) },
        Period { start: utc(T0 + 3600), end: utc(T0 + 4200) },
    ];
    let numeric = charge_boundary_specs("energy", &periods, true);
    assert_eq!(numeric.len(), 12);
    let first = &numeric[0];
    assert_eq!(first.0, "charge_0_t1_start");
    assert_eq!(first.1, "charge_0");
    assert_eq!(first.2, "t1_start");
    assert!(first.3.contains("range(start: 2026-01-15T10:15:00+00:00, stop: 2026-01-15T10:30:00+00:00)"));
    assert_eq!(first.4, "last()");
    let t1_end = &numeric[1];
    assert!(t1_end.3.contains("range(start: 2026-01-15T10:40:00+00:00, stop: 2026-01-15T10:55:00+00:00)"));
    assert_eq!(t1_end.4, "first()");
    assert_eq!(numeric[11].0, "charge_1_remaining_end");
    assert!(numeric[11].3.contains("r._measurement == \"dhw\" and r._field == \"remaining_litres\""));
    let text = charge_boundary_specs("energy", &periods, false);
    assert_eq!(text.len(), 4);
    assert_eq!(text[2].0, "charge_1_sfmode_start");
    assert!(text[2].3.contains("r.field == \"HwcSFMode\""));
}

#[test]
fn sfmode_stuck_only_without_recent_charge_end() {
    let until = utc(T0);
    let old = Period { start: utc(T0 - 7200), end: utc(T0 - 3600) };
    let recent = Period { start: utc(T0 - 1200), end: utc(T0 - 300) };
    assert!(hwc_sfmode_load_stuck(Some("load"), &[old], &until));
    assert!(!hwc_sfmode_load_stuck(Some("load"), &[old, recent], &until));
    assert!(!hwc_sfmode_load_stuck(Some("eco"), &[old], &until));
    assert!(!hwc_sfmode_load_stuck(None, &[], &until));
}

#[test]
fn no_crossover_needs_charges() {
    assert!(!no_crossover(&[]));
    assert!(no_crossover(&[Some(false), None]));
    assert!(!no_crossover(&[Some(false), Some(true)]));
}

#[test]
fn compact_query_filters_and_summaries() {
    assert_eq!(topic_filter("t", "value"), "r.topic == \"t\" and r._field == \"value\"");
    assert_eq!(measurement_filter("ebusd_poll", "FlowTemp"), "r._measurement == \"ebusd_poll\" and r.field == \"FlowTemp\"");
    assert_eq!(plain_measurement_filter("dhw", "remaining_litres"), "r._measurement == \"dhw\" and r._field == \"remaining_litres\"");
    let w = window_query_flux("b", &utc(T0), &utc(T0 + 60), "x");
    assert_eq!(last_value_flux("b", &utc(T0), &utc(T0 + 60), "x"), format!("{w} |> last()"));
    let inputs = summary_inputs(
        "topic",
        &[("leather".to_string(), "f0".to_string()), ("aldora".to_string(), "f1".to_string())],
        "b",
        &utc(T0),
        &utc(T0 + 60),
    );
    assert_eq!(inputs.len(), 2);
    assert_eq!(inputs[1].0, "topic_base_1");
    assert_eq!(inputs[1].1, "aldora");
    assert_eq!(inputs[1].2, window_query_flux("b", &utc(T0), &utc(T0 + 60), "f1"));
}

#[test]
fn threshold_scripts() {
    let below = below_threshold_flux("b", &utc(T0), &utc(T0 + 60), "emon/emonth2_23/temperature", "value", "20");
    assert!(below.contains("map(fn: (r) => ({ r with active: if r._value < 20 then 1 else 0 }))"));
    assert!(below.ends_with("|> keep(columns:[\"_time\",\"active\"])"));
    let above = above_threshold_flux("b", &utc(T0), &utc(T0 + 60), "ebusd_poll", "BuildingCircuitFlow", "30s", "900");
    assert!(above.contains("aggregateWindow(every: 30s, fn: last, createEmpty: false)"));
    assert!(above.contains("if r._value >= 900 then 1 else 0"));
}

#[test]
fn first_values_of_results() {
    let rows = vec![
        row(&[("_value", "")]),
        row(&[("_value", "_value")]),
        row(&[("_value", "load")]),
        row(&[("_value", "eco")]),
    ];
    assert_eq!(first_usable_value(&rows).as_deref(), Some("load"));
    assert_eq!(first_usable_value(&vec![]), None);
    let pts = vec![
        row(&[("_time", "_time"), ("_value", "1")]),
        row(&[("_time", "2026-01-15T10:30:00Z"), ("_value", "")]),
        row(&[("_time", "2026-01-15T10:30:00Z"), ("_value", "42.5")]),
    ];
    let (t, v) = first_point_cells(&pts).unwrap().unwrap();
    assert_eq!(t.timestamp(), T0);
    assert_eq!(v, "42.5");
    assert!(matches!(first_point_cells(&vec![row(&[("_time", "x"), ("_value", "1")])]), Err(ThermalError::DateTimeParse { .. })));
    assert!(matches!(first_point_cells(&vec![]), Ok(None)));
}

#[test]
fn postgres_statements() {
    let m = MeasurementRoute::Multical { column: "dhw_flow".to_string() };
    assert_eq!(
        pg_series_sql(&m, Some(("10 seconds", "max"))),
        "SELECT time_bucket(INTERVAL '10 seconds', time) AS bucket, MAX(\"dhw_flow\") AS value FROM multical WHERE time >= $1 AND time < $2 AND \"dhw_flow\" IS NOT NULL GROUP BY bucket ORDER BY bucket"
    );
    assert_eq!(
        pg_series_sql(&m, None),
        "SELECT time, \"dhw_flow\" AS value FROM multical WHERE time >= $1 AND time < $2 AND \"dhw_flow\" IS NOT NULL ORDER BY time"
    );
    let e = MeasurementRoute::EbusdPoll { field: "HwcStorageTemp".to_string() };
    assert!(pg_series_sql(&e, Some(("30 seconds", "last"))).contains("FROM ebusd_poll WHERE field = $1"));
    let z = topic_route("zigbee2mqtt/Leather").unwrap();
    assert!(room_topic_sql(&z).unwrap().contains("FROM zigbee WHERE device = $1"));
    let t = topic_route("emon/emonth2_23/temperature").unwrap();
    assert!(room_topic_sql(&t).unwrap().contains("AVG(\"temperature\") AS value FROM emonth"));
    let tesla = topic_route("emon/tesla/solar_W").unwrap();
    assert!(room_topic_sql(&tesla).is_none());
}

#[test]
fn max_divergence_script() {
    let flux = max_divergence_flux("energy", &utc(T0), &utc(T0 + 3600));
    let expected = "t1 = from(bucket: \"energy\") |> range(start: 2026-01-15T10:30:00+00:00, stop: 2026-01-15T11:30:00+00:00) |> filter(fn: (r) => r._measurement == \"emon\" and r.field == \"dhw_t1\") |> aggregateWindow(every: 30s, fn: last, createEmpty: false) |> keep(columns:[\"_time\",\"_value\"]) |> set(key: \"series\", value: \"t1\")\n\nhwc = from(bucket: \"energy\") |> range(start: 2026-01-15T10:30:00+00:00, stop: 2026-01-15T11:30:00+00:00) |> filter(fn: (r) => r._measurement == \"ebusd_poll\" and r.field == \"HwcStorageTemp\") |> aggregateWindow(every: 30s, fn: last, createEmpty: false) |> keep(columns:[\"_time\",\"_value\"]) |> set(key: \"series\", value: \"hwc\")\n\nunion(tables:[t1, hwc]) |> pivot(rowKey:[\"_time\"], columnKey:[\"series\"], valueColumn:\"_value\") |> map(fn:(r)=> ({ r with diff: if r.t1 > r.hwc then r.t1 - r.hwc else r.hwc - r.t1 })) |> keep(columns:[\"_time\",\"diff\"]) |> rename(columns: {diff: \"_value\"}) |> max()";
    assert_eq!(flux, expected);
}

#[test]
fn controller_rows_script() {
    let flux = controller_rows_flux("energy", &utc(T0), &utc(T0 + 60));
    assert!(flux.starts_with("from(bucket: \"energy\")\n  |> range(start: 2026-01-15T10:30:00+00:00, stop: 2026-01-15T10:31:00+00:00)\n  |> filter(fn: (r) => r._measurement == \"adaptive_heating_mvp\")\n"));
    assert!(flux.contains("tariff: if exists r.tariff then r.tariff else \"unknown\" }))"));
    assert!(flux.ends_with("|> keep(columns: [\"_time\", \"mode\", \"action\", \"tariff\", \"target_flow_c\", \"curve_after\", \"flow_desired_c\"])"));
}
