use rustberry::json::{parse_snapshot, render_json};
use rustberry::reading::{Reading, SensorKind};

#[test]
fn render_empty_snapshot() {
    let out = render_json(&vec![]);
    assert_eq!(out, b"[]".to_vec());
}

#[test]
fn render_single_reading_exact_bytes() {
    let r = Reading::new(SensorKind::Dht22, 1700000000, 215, 604);
    let out = render_json(&vec![r]);
    let expected =
        br#"[{"sensor":"dht22","timestamp":1700000000,"temperature":21.5,"humidity":60.4}]"#;
    assert_eq!(out, expected.to_vec());
}

#[test]
fn render_negative_temperature() {
    let r = Reading::new(SensorKind::Dht11, 5, -35, 0);
    let out = render_json(&vec![r]);
    let expected = br#"[{"sensor":"dht11","timestamp":5,"temperature":-3.5,"humidity":0.0}]"#;
    assert_eq!(out, expected.to_vec());
}

#[test]
fn render_two_readings_are_comma_separated() {
    let a = Reading::new(SensorKind::Dummy, 1, 0, 1000);
    let b = Reading::new(SensorKind::Dht22, 2, -500, 500);
    let out = render_json(&vec![a, b]);
    let text = String::from_utf8(out).unwrap();
    assert_eq!(
        text,
        r#"[{"sensor":"dummy","timestamp":1,"temperature":0.0,"humidity":100.0},{"sensor":"dht22","timestamp":2,"temperature":-50.0,"humidity":50.0}]"#
    );
}

#[test]
fn round_trip_preserves_every_field_and_the_order() {
    let readings = vec![
        Reading::new(SensorKind::Dht11, 1, 230, 451),
        Reading::new(SensorKind::Dht22, u64::MAX, -500, 0),
        Reading::new(SensorKind::Dummy, 0, i32::MAX, i32::MIN),
    ];
    let bytes = render_json(&readings);
    let back = parse_snapshot(&bytes).unwrap();
    assert_eq!(back, readings);
}

#[test]
fn round_trip_of_the_empty_snapshot() {
    let bytes = render_json(&vec![]);
    let back = parse_snapshot(&bytes).unwrap();
    assert!(back.is_empty());
}

#[test]
fn parse_rejects_bytes_that_do_not_fit_the_format() {
    assert!(parse_snapshot(&b"".to_vec()).is_none());
    assert!(parse_snapshot(&b"not json".to_vec()).is_none());
    assert!(parse_snapshot(&b"[".to_vec()).is_none());
    assert!(parse_snapshot(&br#"[{"sensor":"dht22""#.to_vec()).is_none());
    assert!(parse_snapshot(&b"[]trailing".to_vec()).is_none());
    assert!(parse_snapshot(&br#"[{"sensor":"nosuch","timestamp":1,"temperature":0.0,"humidity":0.0}]"#.to_vec()).is_none());
}

#[test]
fn rendered_snapshot_is_valid_json_for_other_readers() {
    let readings = vec![
        Reading::new(SensorKind::Dht22, 1700000000, 215, 604),
        Reading::new(SensorKind::Dummy, 1700000060, -15, 999),
    ];
    let bytes = render_json(&readings);
    let value: serde_json::Value = serde_json::from_slice(&bytes).unwrap();
    let arr = value.as_array().unwrap();
    assert_eq!(arr.len(), 2);
    assert_eq!(arr[0]["sensor"].as_str().unwrap(), "dht22");
    assert_eq!(arr[0]["timestamp"].as_u64().unwrap(), 1700000000);
    assert!((arr[0]["temperature"].as_f64().unwrap() - 21.5).abs() < 1e-9);
    assert!((arr[0]["humidity"].as_f64().unwrap() - 60.4).abs() < 1e-9);
    assert_eq!(arr[1]["sensor"].as_str().unwrap(), "dummy");
    assert!((arr[1]["temperature"].as_f64().unwrap() + 1.5).abs() < 1e-9);
}

#[test]
fn parse_rejects_a_timestamp_beyond_the_range() {
    let bytes =
        br#"[{"sensor":"dummy","timestamp":99999999999999999999,"temperature":0.0,"humidity":0.0}]"#;
    assert!(parse_snapshot(&bytes.to_vec()).is_none());
}

#[test]
fn parse_accepts_the_largest_timestamp() {
    let bytes =
        br#"[{"sensor":"dummy","timestamp":18446744073709551615,"temperature":0.0,"humidity":0.0}]"#;
    let back = parse_snapshot(&bytes.to_vec()).unwrap();
    assert_eq!(back[0].timestamp, u64::MAX);
}

#[test]
fn parse_rejects_a_temperature_beyond_the_range() {
    let bytes =
        br#"[{"sensor":"dummy","timestamp":1,"temperature":99999999999.9,"humidity":0.0}]"#;
    assert!(parse_snapshot(&bytes.to_vec()).is_none());
}
