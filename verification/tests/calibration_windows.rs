use heatpump_analysis::config::{parse_validation_windows, ValidationWindowCfg};
use heatpump_analysis::time::Timestamp;

fn dt(epoch: i64) -> Timestamp {
    Timestamp { secs: epoch, nanos: 0, offset: 0 }
}

#[test]
fn parse_validation_windows_happy_path() {
    let cfgs = vec![
        ValidationWindowCfg {
            name: "night_a".to_string(),
            start: "2026-04-10T00:00:00+00:00".to_string(),
            end: "2026-04-10T06:00:00+00:00".to_string(),
            door_state: "normal".to_string(),
        },
        ValidationWindowCfg {
            name: "night_b".to_string(),
            start: "2026-04-11T00:00:00+00:00".to_string(),
            end: "2026-04-11T06:00:00+00:00".to_string(),
            door_state: "closed".to_string(),
        },
    ];
    let parsed = parse_validation_windows(&cfgs).unwrap();
    assert_eq!(parsed.len(), 2);
    assert_eq!(parsed[0].name, "night_a");
    // 2026-04-10T00:00:00Z and 2026-04-10T06:00:00Z
    assert_eq!(parsed[0].start, dt(1_775_779_200));
    assert_eq!(parsed[0].end, dt(1_775_800_800));
    assert_eq!(parsed[0].door_state, "normal");
    assert_eq!(parsed[1].name, "night_b");
    assert_eq!(parsed[1].door_state, "closed");
}

#[test]
fn parse_validation_windows_empty_input() {
    let parsed = parse_validation_windows(&[]).unwrap();
    assert!(parsed.is_empty());
}

#[test]
fn parse_validation_windows_rejects_bad_datetime() {
    let cfgs = vec![ValidationWindowCfg {
        name: "bad".to_string(),
        start: "not-a-datetime".to_string(),
        end: "2026-04-10T06:00:00+00:00".to_string(),
        door_state: "normal".to_string(),
    }];
    assert!(parse_validation_windows(&cfgs).is_err());
}
