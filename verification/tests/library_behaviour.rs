use heatpump_analysis::config::{default_door_state, default_off_codes};
use heatpump_analysis::diagnostics::detect_cooldown_periods;
use heatpump_analysis::digest::{check_snapshot_digest, config_sha256, sha256_of_bytes};
use heatpump_analysis::dhw::{inflection_tags, measurement_route, DrawType, InflectionCategory};
use heatpump_analysis::error::ThermalError;
use heatpump_analysis::flux::{parse_influx_annotated_csv, FluxRow};
use heatpump_analysis::geometry::{
    default_pipe, default_true, default_vertical, leak, thermal_geometry_path,
};
use heatpump_analysis::heating::{
    add_missing_warning, controller_mode_changes, controller_row_from_cells, is_waking_time,
    likely_preheat_index, missing_warning, period_contains_recent_end,
    period_intersects_waking_hours, sampling_window_start, sawtooth_from_signs,
    string_points_from_series, window_summary, ControllerRow,
};
use heatpump_analysis::history::{
    batch_metric_selector_union_flux, batch_summary_union_flux, profiled_flux,
    string_values_from_batch_rows,
};
use heatpump_analysis::influx::{
    flux_query_url, humidity_flux, influx_write_url, latest_value_flux, latest_value_source,
    measurement_series_flux, room_temp_condition, room_temps_flux, time_value_cells,
    topic_series_flux, LatestSource,
};
use heatpump_analysis::operational::{segment_states, HpState};
use heatpump_analysis::order::time_order;
use heatpump_analysis::periods::{period_duration_seconds, state_change_periods, Period};
use heatpump_analysis::series::build_room_series;
use heatpump_analysis::snapshot::{check_signoff, sanitize_relative_path, trim};
use heatpump_analysis::text::parse_i32;
use heatpump_analysis::time::{epoch_to_dt, normalize_pg_timestamptz, parse_dt, Timestamp};
use heatpump_analysis::topics::quoted_identifier;

fn utc(secs: i64) -> Timestamp {
    epoch_to_dt(secs)
}

fn row(cells: &[(&str, &str)]) -> FluxRow {
    let mut r = FluxRow::new();
    for (k, v) in cells {
        r.insert(k.to_string(), v.to_string());
    }
    r
}

fn controller(secs: i64, mode: &str, action: &str) -> ControllerRow {
    ControllerRow {
        ts: utc(secs),
        mode: mode.to_string(),
        action: action.to_string(),
        tariff: "unknown".to_string(),
    }
}

// 2026-01-15T10:30:00Z
const T0: i64 = 1_768_473_000;

#[test]
fn signoff_requires_human_approval_first() {
    assert!(matches!(check_signoff("reason", false), Err(ThermalError::HumanApprovalRequired)));
    assert!(matches!(check_signoff("   ", false), Err(ThermalError::HumanApprovalRequired)));
}

#[test]
fn signoff_refuses_blank_reason_and_trims_the_rest() {
    assert!(matches!(check_signoff(" \t\n ", true), Err(ThermalError::EmptySignoffReason)));
    assert_eq!(check_signoff("  new baseline \n", true).unwrap(), "new baseline");
    assert_eq!(trim("\u{a0}x y\u{3000}"), "x y");
}

#[test]
fn sanitize_keeps_named_components_only() {
    assert_eq!(sanitize_relative_path("files/a.json").unwrap(), "files/a.json");
    assert_eq!(sanitize_relative_path("a//b/./c/").unwrap(), "a/b/c");
    for bad in ["/etc/passwd", "../x", "a/../b", ".", "./a", "", "//", "a/.."] {
        match sanitize_relative_path(bad) {
            Err(ThermalError::InvalidSnapshotPath(p)) => assert_eq!(p, bad),
            other => panic!("expected refusal of {bad:?}, got {other:?}"),
        }
    }
}

#[test]
fn sanitize_is_idempotent_on_examples() {
    for ok in ["files/a.json", "a//b/./c/", "x/./y"] {
        let once = sanitize_relative_path(ok).unwrap();
        assert_eq!(sanitize_relative_path(&once).unwrap(), once);
    }
}

#[test]
fn mode_changes_start_from_none_and_chain() {
    let rows = vec![
        controller(T0, "normal", "hold"),
        controller(T0 + 60, "normal", "hold"),
        controller(T0 + 120, "preheat", "overnight_preheat"),
        controller(T0 + 180, "normal", "hold"),
        controller(T0 + 240, "normal", "hold"),
    ];
    let changes = controller_mode_changes(&rows);
    assert_eq!(changes.len(), 3);
    assert_eq!(changes[0].from, None);
    assert_eq!(changes[0].to, "normal");
    assert_eq!(changes[1].from.as_deref(), Some("normal"));
    assert_eq!(changes[1].to, "preheat");
    assert_eq!(changes[2].from.as_deref(), Some("preheat"));
    assert_eq!(changes[2].to, "normal");
    assert_eq!(changes[1].ts, utc(T0 + 120).to_rfc3339());
    assert!(controller_mode_changes(&[]).is_empty());
}

#[test]
fn preheat_is_first_matching_action() {
    let rows = vec![
        controller(T0, "normal", "hold"),
        controller(T0 + 60, "normal", "preheat_model"),
        controller(T0 + 120, "normal", "overnight_preheat"),
    ];
    assert_eq!(likely_preheat_index(&rows), Some(1));
    assert_eq!(likely_preheat_index(&rows[..1]), None);
    let maintain = vec![controller(T0, "n", "overnight_maintain")];
    assert_eq!(likely_preheat_index(&maintain), Some(0));
}

#[test]
fn waking_hours_are_seven_to_twenty_three() {
    assert!(!is_waking_time(6, 59));
    assert!(is_waking_time(7, 0));
    assert!(is_waking_time(22, 59));
    assert!(!is_waking_time(23, 0));
}

#[test]
fn period_waking_intersection_samples_every_five_minutes() {
    // 2026-01-15T02:00:00Z .. 2026-01-15T06:58:00Z: never waking
    let night = Period { start: utc(1_768_442_400), end: utc(1_768_442_400 + 4 * 3600 + 58 * 60) };
    assert!(!period_intersects_waking_hours(&night));
    // 06:58 .. 07:01: samples at 06:58 only (07:03 is past the end)
    let short = Period { start: utc(1_768_460_280), end: utc(1_768_460_460) };
    assert!(!period_intersects_waking_hours(&short));
    // 06:58 .. 07:04: the 07:03 sample is waking
    let longer = Period { start: utc(1_768_460_280), end: utc(1_768_460_640) };
    assert!(period_intersects_waking_hours(&longer));
    // Local time follows the start's offset: 06:00Z is 07:00 at +01:00.
    let start = parse_dt("2026-01-15T07:00:00+01:00").unwrap();
    let end = parse_dt("2026-01-15T07:01:00+01:00").unwrap();
    assert!(period_intersects_waking_hours(&Period { start, end }));
    // An empty period has no samples.
    assert!(!period_intersects_waking_hours(&Period { start: utc(T0), end: utc(T0) }));
}

#[test]
fn recent_end_window_is_inclusive() {
    let until = utc(T0);
    let p = |end: i64| Period { start: utc(T0 - 7200), end: utc(end) };
    assert!(period_contains_recent_end(&p(T0), &until, 900));
    assert!(period_contains_recent_end(&p(T0 - 900), &until, 900));
    assert!(!period_contains_recent_end(&p(T0 - 901), &until, 900));
    assert!(!period_contains_recent_end(&p(T0 + 1), &until, 900));
}

#[test]
fn sampling_starts_one_hour_before_until_or_at_since() {
    assert_eq!(sampling_window_start(&utc(T0 - 86_400), &utc(T0)), utc(T0 - 3600));
    assert_eq!(sampling_window_start(&utc(T0 - 600), &utc(T0)), utc(T0 - 600));
}

#[test]
fn warnings_name_the_missing_series() {
    assert_eq!(missing_warning("heat curve"), "heat curve unavailable in this window");
    let mut w = vec!["first".to_string()];
    add_missing_warning(&mut w, "return flow", false);
    assert_eq!(w.len(), 1);
    add_missing_warning(&mut w, "return flow", true);
    assert_eq!(w, vec!["first".to_string(), "return flow unavailable in this window".to_string()]);
}

#[test]
fn sawtooth_counts_sign_alternations() {
    assert_eq!(sawtooth_from_signs(3, &[1, -1, 1, -1]), (false, 0));
    assert_eq!(sawtooth_from_signs(5, &[1, -1]), (false, 0));
    assert_eq!(sawtooth_from_signs(5, &[1, -1, 1, -1]), (true, 3));
    assert_eq!(sawtooth_from_signs(6, &[1, 1, -1, -1, 1]), (false, 2));
}

#[test]
fn points_and_window_carry_rfc3339_text() {
    let t = parse_dt("2026-01-15T11:30:00+01:00").unwrap();
    let pts = string_points_from_series(&[(t, "load".to_string())]);
    assert_eq!(pts.len(), 1);
    assert_eq!(pts[0].ts, "2026-01-15T11:30:00+01:00");
    assert_eq!(pts[0].value, "load");
    let w = window_summary(&utc(T0), &utc(T0 + 60), &utc(T0 + 120));
    assert_eq!(w.since, "2026-01-15T10:30:00+00:00");
    assert_eq!(w.until, "2026-01-15T10:31:00+00:00");
    assert_eq!(w.generated_at, "2026-01-15T10:32:00+00:00");
}

#[test]
fn controller_rows_skip_headers_and_default_unknown() {
    assert!(matches!(controller_row_from_cells(&row(&[("mode", "x")])), Ok(None)));
    assert!(matches!(controller_row_from_cells(&row(&[("_time", "")])), Ok(None)));
    assert!(matches!(controller_row_from_cells(&row(&[("_time", "_time")])), Ok(None)));
    match controller_row_from_cells(&row(&[("_time", "nope")])) {
        Err(ThermalError::DateTimeParse { value, .. }) => assert_eq!(value, "nope"),
        other => panic!("expected DateTimeParse, got {other:?}"),
    }
    let r = controller_row_from_cells(&row(&[("_time", "2026-01-15T10:30:00Z"), ("action", "hold")]))
        .unwrap()
        .unwrap();
    assert_eq!(r.ts.timestamp(), T0);
    assert_eq!(r.mode, "unknown");
    assert_eq!(r.action, "hold");
    assert_eq!(r.tariff, "unknown");
}

#[test]
fn time_order_is_stable() {
    let times = vec![utc(T0 + 20), utc(T0), utc(T0 + 20), utc(T0 - 5)];
    assert_eq!(time_order(&times), vec![3, 1, 0, 2]);
    assert!(time_order(&[]).is_empty());
}

#[test]
fn influx_endpoints_trim_trailing_slashes() {
    assert_eq!(flux_query_url("http://pi5data:8086//", "home"), "http://pi5data:8086/api/v2/query?org=home");
    assert_eq!(
        influx_write_url("http://h:8086", "home", "energy"),
        "http://h:8086/api/v2/write?org=home&bucket=energy&precision=s"
    );
}

#[test]
fn room_temperature_flux_uses_field_per_topic() {
    assert_eq!(
        room_temp_condition("ebusd/poll/OutsideTemp"),
        "(r.topic == \"ebusd/poll/OutsideTemp\" and r._field == \"value\")"
    );
    let flux = room_temps_flux(
        "energy",
        &["zigbee2mqtt/Leather", "emon/emonth2_23/temperature"],
        &utc(T0),
        &utc(T0 + 3600),
    );
    assert_eq!(
        flux,
        "from(bucket: \"energy\")\n  |> range(start: 2026-01-15T10:30:00+00:00, stop: 2026-01-15T11:30:00+00:00)\n  |> filter(fn: (r) => (r.topic == \"zigbee2mqtt/Leather\" and r._field == \"temperature\") or (r.topic == \"emon/emonth2_23/temperature\" and r._field == \"value\"))\n  |> aggregateWindow(every: 5m, fn: mean, createEmpty: false)\n  |> keep(columns: [\"_time\", \"topic\", \"_value\"])"
    );
}

#[test]
fn humidity_flux_skips_the_emonth_sensor() {
    assert!(humidity_flux("b", &["emon/emonth2_23/temperature"], &utc(T0), &utc(T0)).is_none());
    let f = humidity_flux("b", &["zigbee2mqtt/Leather", "emon/emonth2_23/temperature"], &utc(T0), &utc(T0))
        .unwrap();
    assert!(f.contains("filter(fn: (r) => (r.topic == \"zigbee2mqtt/Leather\" and r._field == \"humidity\"))"));
    assert!(!f.contains("emonth2_23"));
}

#[test]
fn series_flux_texts() {
    let f = topic_series_flux("energy", &utc(T0), &utc(T0 + 60), "ebusd/poll/StatuscodeNum", "1m", "last");
    assert_eq!(
        f,
        "from(bucket: \"energy\")\n  |> range(start: 2026-01-15T10:30:00+00:00, stop: 2026-01-15T10:31:00+00:00)\n  |> filter(fn: (r) => r.topic == \"ebusd/poll/StatuscodeNum\")\n  |> aggregateWindow(every: 1m, fn: last, createEmpty: false)\n  |> keep(columns: [\"_time\", \"_value\"])"
    );
    let l = latest_value_flux("energy", &utc(T0), &utc(T0 + 60), "ebusd/poll/FlowTemp");
    assert_eq!(
        l,
        "from(bucket: \"energy\") |> range(start: 2026-01-15T10:30:00+00:00, stop: 2026-01-15T10:31:00+00:00) |> filter(fn: (r) => r.topic == \"ebusd/poll/FlowTemp\") |> last() |> keep(columns: [\"_value\"])"
    );
    let m = measurement_series_flux("energy", "emon", "dhw_flow", &utc(T0), &utc(T0 + 60), Some(("10s", "mean")));
    assert_eq!(
        m,
        "from(bucket: \"energy\")\n  |> range(start: 2026-01-15T10:30:00+00:00, stop: 2026-01-15T10:31:00+00:00)\n  |> filter(fn: (r) => r._measurement == \"emon\" and r._field == \"value\" and r.field == \"dhw_flow\")\n  |> aggregateWindow(every: 10s, fn: mean, createEmpty: false)"
    );
    let raw = measurement_series_flux("energy", "ebusd_poll", "HwcStorageTemp", &utc(T0), &utc(T0 + 60), None);
    assert!(raw.ends_with("|> filter(fn: (r) => r._measurement == \"ebusd_poll\" and r.field == \"HwcStorageTemp\")"));
}

#[test]
fn latest_value_sources() {
    assert!(matches!(latest_value_source("ebusd/poll/FlowTemp"), Some(LatestSource::Poll { field: "FlowTemp" })));
    assert!(matches!(latest_value_source("ebusd/700/HwcSFMode"), Some(LatestSource::Live { field: "HwcSFMode" })));
    assert!(latest_value_source("zigbee2mqtt/Leather").is_none());
}

#[test]
fn time_value_cells_errors_in_order() {
    match time_value_cells(&row(&[("_value", "1")]), "t ctx", "v ctx") {
        Err(ThermalError::MissingColumn { column, context }) => {
            assert_eq!(column, "_time");
            assert_eq!(context, "t ctx");
        }
        other => panic!("expected MissingColumn, got {other:?}"),
    }
    assert!(matches!(
        time_value_cells(&row(&[("_time", "bad")]), "t", "v"),
        Err(ThermalError::DateTimeParse { .. })
    ));
    let (t, v) = time_value_cells(&row(&[("_time", "2026-01-15T10:30:00Z"), ("_value", "21.5")]), "t", "v").unwrap();
    assert_eq!(t.timestamp(), T0);
    assert_eq!(v, "21.5");
}

#[test]
fn digests_are_sha256_hex() {
    assert_eq!(config_sha256(""), "e3b0c44298fc1c149afbf4c8996fb92427ae41e4649b934ca495991b7852b855");
    assert_eq!(sha256_of_bytes(b"abc"), "ba7816bf8f01cfea414140de5dae2223b00361a396177a9cb410ff61f20015ad");
    assert!(check_snapshot_digest(b"abc", "ba7816bf8f01cfea414140de5dae2223b00361a396177a9cb410ff61f20015ad", "f").is_ok());
    match check_snapshot_digest(b"abc", "00", "files/x.json") {
        Err(ThermalError::InvalidSnapshotPath(m)) => assert_eq!(m, "sha256 mismatch for files/x.json"),
        other => panic!("expected mismatch, got {other:?}"),
    }
}

#[test]
fn configuration_defaults() {
    assert_eq!(default_door_state(), "normal");
    assert_eq!(default_off_codes(), vec![100, 101, 102, 103, 104, 105, 106, 107, 108, 110, 134]);
    assert_eq!(default_vertical(), "vertical");
    assert_eq!(default_pipe(), "none");
    assert!(default_true());
    assert_eq!(thermal_geometry_path(), "data/canonical/thermal_geometry.json");
    assert_eq!(leak("landing".to_string()), "landing");
}

#[test]
fn inflection_tags_have_no_spaces() {
    let t = inflection_tags(InflectionCategory::LowerBound, false, DrawType::Tap);
    assert_eq!(t, "dhw_inflection,category=lower_bound,crossover=false,draw_type=tap");
    assert!(!t.contains(' '));
}

#[test]
fn measurement_route_rejects_other_measurements() {
    assert_eq!(measurement_route("emon", "electric_Power"), None);
    assert_eq!(measurement_route("zigbee", "dhw_flow"), None);
}

#[test]
fn pg_timestamptz_normalisation() {
    assert_eq!(normalize_pg_timestamptz("2026-01-15 10:30:00+00").unwrap(), "2026-01-15T10:30:00+00:00");
    assert_eq!(normalize_pg_timestamptz("2026-01-15 10:30:00-05:30").unwrap(), "2026-01-15T10:30:00-05:30");
    assert_eq!(normalize_pg_timestamptz("2026-01-15T10:30:00+00"), None);
    assert_eq!(normalize_pg_timestamptz("2026-01-15 +01"), None);
}

#[test]
fn quoted_identifiers_double_embedded_quotes() {
    assert_eq!(quoted_identifier("P3"), "\"P3\"");
    assert_eq!(quoted_identifier("a\"b"), "\"a\"\"b\"");
}

#[test]
fn parse_i32_follows_std() {
    assert_eq!(parse_i32("42"), Some(42));
    assert_eq!(parse_i32("-1"), Some(-1));
    assert_eq!(parse_i32("+7"), Some(7));
    assert_eq!(parse_i32(""), None);
    assert_eq!(parse_i32("-"), None);
    assert_eq!(parse_i32("2147483648"), None);
    assert_eq!(parse_i32("-2147483648"), Some(i32::MIN));
}

#[test]
fn state_change_periods_open_close_and_minimum() {
    let csv = "\
,result,table,_time,active
,_result,0,2026-01-15T10:30:00Z,1
,_result,0,2026-01-15T10:40:00Z,-1
,_result,0,2026-01-15T11:00:00Z,1
,_result,0,2026-01-15T11:02:00Z,-1
,_result,0,2026-01-15T11:30:00Z,1
";
    let rows = parse_influx_annotated_csv(csv).unwrap();
    let until = utc(T0 + 7200);
    let all = state_change_periods(&rows, &utc(T0 - 3600), &until, false, None).unwrap();
    assert_eq!(all.len(), 3);
    assert_eq!(all[0].duration_seconds(), 600);
    assert_eq!(all[2].end, until);
    let long = state_change_periods(&rows, &utc(T0 - 3600), &until, false, Some(300)).unwrap();
    assert_eq!(long.len(), 2);
    assert_eq!(long[1].start.timestamp(), T0 + 3600);
    let baseline = state_change_periods(&rows, &utc(T0 - 3600), &until, true, None).unwrap();
    assert_eq!(baseline[0].start.timestamp(), T0 - 3600);
    let bad = parse_influx_annotated_csv(",r,_time,active\n,x,nope,1\n").unwrap();
    assert!(state_change_periods(&bad, &utc(T0), &until, false, None).is_err());
}

#[test]
fn cooldowns_need_off_codes_for_longer_than_minimum() {
    let off = default_off_codes();
    let rows = vec![
        (utc(T0), 34),
        (utc(T0 + 60), 100),
        (utc(T0 + 7260), 101),
        (utc(T0 + 9000), 34),
        (utc(T0 + 9060), 104),
        (utc(T0 + 9120), 34),
    ];
    let p = detect_cooldown_periods(&rows, &off, 3600);
    assert_eq!(p, vec![(utc(T0 + 60), utc(T0 + 9000))]);
    assert!(detect_cooldown_periods(&rows, &off, 100_000).is_empty());
}

#[test]
fn operational_segments_split_on_state_changes() {
    let rows = vec![
        (utc(T0), HpState::Heating),
        (utc(T0 + 600), HpState::Heating),
        (utc(T0 + 1200), HpState::Dhw),
        (utc(T0 + 1260), HpState::Off),
        (utc(T0 + 4860), HpState::Off),
    ];
    let segs = segment_states(&rows, 300);
    assert_eq!(segs.len(), 2);
    assert_eq!(segs[0], (utc(T0), utc(T0 + 1200), HpState::Heating));
    assert_eq!(segs[1], (utc(T0 + 1260), utc(T0 + 4860), HpState::Off));
    assert_eq!(HpState::Dhw.to_string(), "dhw");
}

#[test]
fn batch_scripts_and_selector_values() {
    let s = batch_summary_union_flux(&[("a".to_string(), "leather".to_string(), "base()".to_string())]);
    assert!(s.starts_with("a = base()\n\na_count = a |> count(column: \"_value\") |> map(fn: (r) => ({ r with _value: float(v: r._value) })) |> set(key: \"series\", value: \"leather\") |> set(key: \"metric\", value: \"count\")"));
    assert!(s.ends_with("union(tables: [a_count, a_start, a_end, a_min, a_max, a_latest])"));
    assert_eq!(batch_metric_selector_union_flux(&[]), "");
    let m = batch_metric_selector_union_flux(&[(
        "v".to_string(),
        "sfmode".to_string(),
        "last".to_string(),
        "b()".to_string(),
        "last()".to_string(),
    )]);
    assert_eq!(m, "v = b()\n\nv_last = v |> last() |> set(key: \"series\", value: \"sfmode\") |> set(key: \"metric\", value: \"last\")\n\nunion(tables: [v_last])");
    assert_eq!(
        profiled_flux("x"),
        "import \"profiler\"\noption profiler.enabledProfilers = [\"query\", \"operator\"]\n\nx"
    );
    let rows = vec![
        row(&[("series", "s"), ("metric", "last"), ("_value", "load")]),
        row(&[("series", "s"), ("metric", "first"), ("_value", "")]),
        row(&[("series", "s"), ("metric", "x"), ("_value", "_value")]),
        row(&[("series", "s"), ("metric", "last"), ("_value", "idle")]),
    ];
    let vals = string_values_from_batch_rows(rows);
    assert_eq!(vals.get("s", "last").map(|v| v.as_str()), Some("idle"));
    assert!(vals.get("s", "first").is_none());
    assert!(vals.get("s", "x").is_none());
}

#[test]
fn room_series_grouped_by_sensor_and_time_ordered() {
    let rooms = vec![
        ("leather".to_string(), "emon/emonth2_23/temperature".to_string()),
        ("office".to_string(), "zigbee2mqtt/office".to_string()),
        ("hall".to_string(), "zigbee2mqtt/hall".to_string()),
    ];
    let rows = vec![
        (utc(T0 + 1800), "emon/emonth2_23/temperature".to_string(), 20.0),
        (utc(T0), "emon/emonth2_23/temperature".to_string(), 19.0),
        (utc(T0 + 900), "zigbee2mqtt/office".to_string(), 18.5),
        (utc(T0 + 2700), "unknown/topic".to_string(), 99.0),
    ];
    let series = build_room_series(&rows, &rooms);
    assert_eq!(series.len(), 2);
    assert_eq!(series[0].0, "leather");
    assert_eq!(series[0].1, vec![(utc(T0), 19.0), (utc(T0 + 1800), 20.0)]);
    assert_eq!(series[1].0, "office");
    assert_eq!(series[1].1, vec![(utc(T0 + 900), 18.5)]);
}

#[test]
fn period_duration_from_text() {
    assert_eq!(period_duration_seconds("2026-01-15T10:30:00+00:00", "2026-01-15T11:00:00+01:00"), -1800);
    assert_eq!(period_duration_seconds("2026-01-15 10:30:00+00", "2026-01-15T10:31:30.5Z"), 90);
    assert_eq!(period_duration_seconds("nope", "2026-01-15T10:31:30Z"), 0);
}
