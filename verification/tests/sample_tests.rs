use rustberry::json::parse_snapshot;
use rustberry::http::respond_snapshot;
use rustberry::reading::{Reading, SensorError, SensorKind};
use rustberry::sample::run_cycle;
use rustberry::store::ReadingStore;

fn reading(ts: u64) -> Reading {
    Reading::new(SensorKind::Dht22, ts, 200, 500)
}

#[test]
fn a_failing_provider_does_not_stop_the_others() {
    let mut store = ReadingStore::new(usize::MAX);
    let r1 = reading(1);
    let r2 = reading(2);
    let outcomes = vec![
        Err(SensorError::Timeout),
        Ok(r1),
        Err(SensorError::Checksum),
        Ok(r2),
    ];
    let failed = run_cycle(&mut store, &outcomes);
    assert_eq!(store.snapshot(), vec![r1, r2]);
    assert_eq!(failed, vec![SensorError::Timeout, SensorError::Checksum]);
}

#[test]
fn a_provider_that_always_fails_never_blocks_later_cycles() {
    let mut store = ReadingStore::new(usize::MAX);
    for ts in 1..=3u64 {
        let outcomes = vec![Err(SensorError::GpioAccess), Ok(reading(ts))];
        let failed = run_cycle(&mut store, &outcomes);
        assert_eq!(failed, vec![SensorError::GpioAccess]);
    }
    let got: Vec<u64> = store.snapshot().iter().map(|r| r.timestamp).collect();
    assert_eq!(got, vec![1, 2, 3]);
}

#[test]
fn one_provider_one_cycle_per_interval_gives_one_reading_each() {
    // three elapsed intervals with a single enabled provider
    let mut store = ReadingStore::new(usize::MAX);
    for ts in [0u64, 1, 2] {
        let outcomes = vec![Ok(reading(ts))];
        run_cycle(&mut store, &outcomes);
    }
    assert_eq!(store.len(), 3);
}

#[test]
fn an_empty_provider_set_changes_nothing() {
    let mut store = ReadingStore::new(4);
    let failed = run_cycle(&mut store, &vec![]);
    assert!(failed.is_empty());
    assert_eq!(store.len(), 0);
}

#[test]
fn cycles_respect_the_retention_bound() {
    let mut store = ReadingStore::new(2);
    let outcomes = vec![Ok(reading(1)), Ok(reading(2)), Ok(reading(3))];
    run_cycle(&mut store, &outcomes);
    let got: Vec<u64> = store.snapshot().iter().map(|r| r.timestamp).collect();
    assert_eq!(got, vec![2, 3]);
}

#[test]
fn every_snapshot_serves_parseable_json() {
    let mut store = ReadingStore::new(3);
    for ts in 0..6u64 {
        let outcomes = vec![Ok(reading(ts)), Err(SensorError::Timeout)];
        run_cycle(&mut store, &outcomes);
        let snapshot = store.snapshot();
        let response = respond_snapshot(&snapshot);
        let text = String::from_utf8(response).unwrap();
        let (_, body) = text.split_once("\r\n\r\n").unwrap();
        let back = parse_snapshot(&body.as_bytes().to_vec()).unwrap();
        assert_eq!(back, snapshot);
    }
}
