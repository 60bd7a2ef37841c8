use rustberry::reading::{Reading, SensorKind};
use rustberry::store::ReadingStore;

fn reading(ts: u64) -> Reading {
    Reading::new(SensorKind::Dummy, ts, 215, 604)
}

#[test]
fn empty_store_snapshot_is_empty() {
    let store = ReadingStore::new(8);
    assert_eq!(store.len(), 0);
    assert!(store.snapshot().is_empty());
}

#[test]
fn snapshot_returns_appends_in_insertion_order() {
    let mut store = ReadingStore::new(10);
    let a = reading(1);
    let b = reading(2);
    let c = reading(3);
    store.append(a);
    store.append(b);
    store.append(c);
    assert_eq!(store.snapshot(), vec![a, b, c]);
}

#[test]
fn eviction_drops_the_oldest_reading() {
    let mut store = ReadingStore::new(3);
    for ts in [1u64, 2, 3, 4] {
        store.append(reading(ts));
    }
    let got: Vec<u64> = store.snapshot().iter().map(|r| r.timestamp).collect();
    assert_eq!(got, vec![2, 3, 4]);
}

#[test]
fn length_never_exceeds_the_bound() {
    let mut store = ReadingStore::new(2);
    for ts in 0..5u64 {
        store.append(reading(ts));
        assert!(store.len() <= 2);
    }
    assert_eq!(store.len(), 2);
    let got: Vec<u64> = store.snapshot().iter().map(|r| r.timestamp).collect();
    assert_eq!(got, vec![3, 4]);
}

#[test]
fn zero_capacity_store_stays_empty() {
    let mut store = ReadingStore::new(0);
    store.append(reading(1));
    store.append(reading(2));
    assert_eq!(store.len(), 0);
    assert!(store.snapshot().is_empty());
}

#[test]
fn max_kept_is_remembered() {
    let store = ReadingStore::new(7);
    assert_eq!(store.max_kept(), 7);
}
