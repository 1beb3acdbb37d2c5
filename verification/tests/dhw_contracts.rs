use heatpump_analysis::dhw::{
    inflection_category, measurement_route, DrawType, InflectionCategory, MeasurementRoute,
};
use heatpump_analysis::draws::{active_intervals, event_grid, preceding_charge_index};
use heatpump_analysis::series::{lkv, to_sorted};
use heatpump_analysis::time::{epoch_to_dt, Timestamp};

fn sample_time(offset_seconds: i64) -> Timestamp {
    // 2026-04-01T06:00:00Z
    epoch_to_dt(1_775_023_200 + offset_seconds)
}

#[test]
fn lp_tag_space_escaping() {
    let cat = InflectionCategory::Capacity;
    let draw_type = DrawType::Shower;
    let tag_str = format!("category={},draw_type={}", cat.to_string(), draw_type.to_string());
    assert!(!tag_str.contains(' '), "LP tags must not contain spaces");
}

#[test]
fn find_events_measurement_routing() {
    assert_eq!(
        measurement_route("emon", "dhw_flow"),
        Some(MeasurementRoute::Multical { column: "dhw_flow".to_string() })
    );
    assert_eq!(
        measurement_route("emon", "dhw_volume_V1"),
        Some(MeasurementRoute::Multical { column: "dhw_volume_v1".to_string() })
    );
    assert_eq!(
        measurement_route("emon", "dhw_t1"),
        Some(MeasurementRoute::Multical { column: "dhw_t1".to_string() })
    );
    assert_eq!(
        measurement_route("ebusd_poll", "BuildingCircuitFlow"),
        Some(MeasurementRoute::EbusdPoll { field: "BuildingCircuitFlow".to_string() })
    );
    assert_eq!(
        measurement_route("ebusd_poll", "HwcStorageTemp"),
        Some(MeasurementRoute::EbusdPoll { field: "HwcStorageTemp".to_string() })
    );
}

#[test]
fn find_events_triple_field_filter_contract() {
    let emon_queries: Vec<(&str, &str)> =
        vec![("dhw_flow", "value"), ("dhw_volume_V1", "value"), ("dhw_t1", "value")];

    for (field, expected_field_value) in &emon_queries {
        assert_eq!(
            *expected_field_value, "value",
            "emon measurement always uses _field='value'; field='{field}' is in the tag"
        );
    }

    let ebusd_queries = vec!["BuildingCircuitFlow", "HwcStorageTemp"];
    for field in &ebusd_queries {
        assert!(!field.is_empty(), "ebusd_poll field tag maps to WHERE field = '{field}'");
    }
}

#[test]
fn dhw_capacity_lp_field_coverage() {
    let val = 125.5_f64;
    let method = "wwhr_direct";
    let line = format!("dhw_capacity recommended_full_litres={val:.1},method=\"{method}\"");

    assert!(line.starts_with("dhw_capacity "));
    assert!(line.contains("recommended_full_litres=125.5"));
    assert!(line.contains("method=\"wwhr_direct\""));
}

#[test]
fn lkv_finds_nearest_preceding() {
    let sorted = vec![(100, 1.0), (200, 2.0), (300, 3.0)];

    assert_eq!(lkv(&sorted, 50), None);
    assert_eq!(lkv(&sorted, 100), Some(1.0));
    assert_eq!(lkv(&sorted, 150), Some(1.0));
    assert_eq!(lkv(&sorted, 300), Some(3.0));
    assert_eq!(lkv(&sorted, 400), Some(3.0));
    assert_eq!(lkv::<f64>(&[], 100), None);
}

#[test]
fn to_sorted_deduplicates_and_orders() {
    let t1 = sample_time(100);
    let t2 = sample_time(200);
    let t3 = sample_time(50);

    let data = vec![(t1, 1.0), (t2, 2.0), (t3, 3.0), (t1, 1.5)];
    let sorted = to_sorted(&data);

    assert_eq!(sorted.len(), 3);
    assert!(sorted[0].0 < sorted[1].0);
    assert!(sorted[1].0 < sorted[2].0);
}

#[test]
fn epoch_to_dt_converts_unix_epoch() {
    let dt = epoch_to_dt(1712739600);
    let text = dt.to_rfc3339();
    assert_eq!(&text[..19], "2024-04-10T09:00:00");
}

#[test]
fn inflection_category_needs_definitive_and_full_charge() {
    assert_eq!(inflection_category(false, true), InflectionCategory::LowerBound);
    assert_eq!(inflection_category(true, true), InflectionCategory::Capacity);
    assert_eq!(inflection_category(true, false), InflectionCategory::Partial);
}

#[test]
fn lookup_in_canonical_series_takes_first_value_of_latest_second() {
    let data = vec![
        (sample_time(200), 2.0),
        (sample_time(100), 1.0),
        (sample_time(200), 2.5),
        (sample_time(300), 3.0),
    ];
    let sorted = to_sorted(&data);
    let base = sample_time(0).timestamp();
    assert_eq!(sorted, vec![(base + 100, 1.0), (base + 200, 2.0), (base + 300, 3.0)]);
    assert_eq!(lkv(&sorted, base + 250), Some(2.0));
    assert_eq!(lkv(&sorted, base + 99), None);
}

#[test]
fn event_grid_covers_all_series_every_ten_seconds() {
    let g = event_grid(&[1_000_003, 1_000_020], &[1_000_041, 1_000_030]);
    assert_eq!(g, vec![1_000_000, 1_000_010, 1_000_020, 1_000_030, 1_000_040]);
    assert_eq!(event_grid(&[], &[]), vec![0]);
    assert!(event_grid(&[100], &[50]).is_empty());
    assert_eq!(event_grid(&[-15], &[-10]), vec![-10]);
}

#[test]
fn intervals_close_on_inactive_steps() {
    let steps = vec![
        (0, false, false),
        (10, true, false),
        (20, true, true),
        (30, false, true),
        (40, true, false),
        (50, false, false),
        (60, true, true),
    ];
    assert_eq!(active_intervals(&steps, None), vec![(10, 30, true), (40, 50, false)]);
    assert_eq!(active_intervals(&steps, Some(15)), vec![(10, 30, true)]);
    assert!(active_intervals(&[], Some(0)).is_empty());
}

#[test]
fn preceding_charge_is_latest_ended_before_draw() {
    let ends = vec![100, 300, 200, 300, 500];
    assert_eq!(preceding_charge_index(&ends, 350), Some(3));
    assert_eq!(preceding_charge_index(&ends, 250), Some(2));
    assert_eq!(preceding_charge_index(&ends, 99), None);
    assert_eq!(preceding_charge_index(&[], 1000), None);
}
