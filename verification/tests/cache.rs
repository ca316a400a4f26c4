use dollar_rates::cache::SnapshotCache;
use dollar_rates::fields::RawFieldMap;
use dollar_rates::numeric::parse;
use dollar_rates::rates::{assemble, DollarRates};
use dollar_rates::util::{current_time_millis, elapsed_millis};
use std::time::{Duration, SystemTime};

fn record(usd: &str) -> DollarRates {
    let mut fields = RawFieldMap::new();
    for (label, value) in [("eur", "40,10"), ("cny", "5,06"), ("try", "1,09"), ("rub", "0,39"), ("usd", usd)] {
        fields.insert(label.to_string(), parse(value).unwrap());
    }
    assemble(&fields).unwrap()
}

#[test]
fn a_read_before_any_write_gives_nothing() {
    let cache = SnapshotCache::new();
    assert!(cache.read().is_none());
    assert!(!cache.is_available());
}

#[test]
fn a_read_after_a_write_gives_the_record() {
    let mut cache = SnapshotCache::new();
    let rates = record("36,50");
    let text = rates.to_string();
    cache.write_at(rates, 1_700_000_000_000);
    let snapshot = cache.read().unwrap();
    assert_eq!(snapshot.rates.to_string(), text);
    assert_eq!(snapshot.updated_at, 1_700_000_000_000);
    assert!(cache.is_available());
}

#[test]
fn a_write_replaces_the_record_and_its_time_together() {
    let mut cache = SnapshotCache::new();
    cache.write_at(record("36,50"), 1_000);
    cache.write_at(record("36,75"), 2_000);
    let snapshot = cache.read().unwrap();
    assert_eq!(snapshot.rates.to_string(), record("36,75").to_string());
    assert_eq!(snapshot.updated_at, 2_000);
}

#[test]
fn a_read_leaves_the_cache_as_it_was() {
    let mut cache = SnapshotCache::new();
    cache.write_at(record("36,50"), 1_000);
    let first = cache.read().unwrap();
    let second = cache.read().unwrap();
    assert_eq!(first.rates.to_string(), second.rates.to_string());
    assert_eq!(first.updated_at, second.updated_at);
}

#[test]
fn a_write_by_the_clock_is_no_earlier_than_the_one_before() {
    let before = current_time_millis();
    let mut cache = SnapshotCache::new();
    cache.write(record("36,50"));
    let first = cache.read().unwrap();
    cache.write(record("36,75"));
    let second = cache.read().unwrap();
    assert!(before <= first.updated_at);
    assert!(first.updated_at <= second.updated_at);
    assert_eq!(second.rates.to_string(), record("36,75").to_string());
}

#[test]
fn the_clock_shows_a_time_of_this_century() {
    let now = current_time_millis();
    assert!(now > 1_600_000_000_000);
    assert!(now < 4_102_444_800_000);
}

#[test]
fn elapsed_time_is_told_in_whole_milliseconds() {
    assert_eq!(elapsed_millis(Ok(Duration::from_micros(1_500_999))), 1_500);
    assert_eq!(elapsed_millis(Ok(Duration::from_secs(86_400))), 86_400_000);
    assert_eq!(elapsed_millis(Ok(Duration::ZERO)), 0);
}

#[test]
fn a_time_before_the_epoch_counts_as_zero() {
    let later = SystemTime::UNIX_EPOCH + Duration::from_secs(5);
    let before = SystemTime::UNIX_EPOCH.duration_since(later);
    assert!(before.is_err());
    assert_eq!(elapsed_millis(before), 0);
}

#[test]
fn a_copy_of_a_snapshot_is_the_same() {
    let mut cache = SnapshotCache::new();
    cache.write_at(record("36,50"), 7);
    let snapshot = cache.read().unwrap();
    let copy = snapshot.clone();
    assert_eq!(copy.updated_at, 7);
    assert_eq!(copy.rates.to_string(), snapshot.rates.to_string());
}
