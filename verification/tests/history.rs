use vitals_core::history::{ChangeDetector, TimePoint, TimeSeriesStore};
use vitals_core::sensors::SensorFormat;

#[test]
fn test_push_and_get() {
    let mut store: TimeSeriesStore<f64> = TimeSeriesStore::new(3600);
    store.push("test_key", 42.0, true, SensorFormat::Temp, 5);
    let series = store.get("test_key");
    assert_eq!(series.len(), 1);
    assert_eq!(series[0].v, Some(42.0));
}

#[test]
fn test_non_graphable_ignored() {
    let mut store: TimeSeriesStore<f64> = TimeSeriesStore::new(3600);
    store.push("test_key", 42.0, true, SensorFormat::StringVal, 5);
    assert!(store.get("test_key").is_empty());
    assert_eq!(store.get_format("test_key"), None);
}

#[test]
fn test_nan_ignored() {
    let mut store: TimeSeriesStore<f64> = TimeSeriesStore::new(3600);
    store.push("test_key", f64::NAN, f64::NAN.is_finite(), SensorFormat::Temp, 5);
    assert!(store.get("test_key").is_empty());
    assert_eq!(store.get_format("test_key"), None);
}

/// Saving reads the keys, series and formats out; loading restores them.
#[test]
fn test_save_load_roundtrip() {
    let mut store: TimeSeriesStore<f64> = TimeSeriesStore::new(3600);
    store.push("cpu_temp", 45000.0, true, SensorFormat::Temp, 5);

    let mut saved_series = Vec::new();
    for key in store.keys() {
        let points: Vec<TimePoint<f64>> = store.get(&key).to_vec();
        saved_series.push((key, points));
    }
    let saved_formats: Vec<(String, String)> = store
        .formats()
        .into_iter()
        .map(|(k, f)| (k, f.as_str().to_string()))
        .collect();

    let mut store2: TimeSeriesStore<f64> = TimeSeriesStore::new(3600);
    store2.restore(1, saved_series, saved_formats);

    let series = store2.get("cpu_temp");
    assert_eq!(series.len(), 1);
    assert_eq!(series[0].v, Some(45000.0));
    assert_eq!(store2.get_format("cpu_temp"), Some(SensorFormat::Temp));
}

#[test]
fn test_change_detector() {
    let mut cd = ChangeDetector::new();
    assert!(cd.has_changed("temp", "cpu", "45°C"));
    assert!(!cd.has_changed("temp", "cpu", "45°C"));
    assert!(cd.has_changed("temp", "cpu", "46°C"));
}

#[test]
fn change_detector_keys_are_independent() {
    let mut cd = ChangeDetector::new();
    assert!(cd.has_changed("temp", "cpu", "45°C"));
    assert!(cd.has_changed("temp", "gpu", "45°C"));
    assert!(cd.has_changed("fan", "cpu", "45°C"));
    assert!(!cd.has_changed("temp", "gpu", "45°C"));
}

#[test]
fn change_detector_reset_keeps_network_categories() {
    let mut cd = ChangeDetector::new();
    assert!(cd.has_changed("network-rx", "eth0", "1 KB/s"));
    assert!(cd.has_changed("temp", "cpu", "45°C"));
    cd.reset();
    assert!(!cd.has_changed("network-rx", "eth0", "1 KB/s"));
    assert!(cd.has_changed("temp", "cpu", "45°C"));
}

#[test]
fn push_within_interval_updates_last_point() {
    let mut store: TimeSeriesStore<f64> = TimeSeriesStore::new(3600);
    store.push_at("k", 1.0, true, SensorFormat::Percent, 5, 1_000_000);
    store.push_at("k", 2.0, true, SensorFormat::Percent, 5, 1_004_000);
    let s = store.get("k");
    assert_eq!(s.len(), 1);
    assert_eq!(s[0].t, 1_000_000);
    assert_eq!(s[0].v, Some(2.0));
    // 4.5 s after the last point is no longer inside the interval less half a second.
    store.push_at("k", 3.0, true, SensorFormat::Percent, 5, 1_004_500);
    assert_eq!(store.get("k").len(), 2);
}

#[test]
fn push_after_long_gap_fills_empty_points() {
    let mut store: TimeSeriesStore<f64> = TimeSeriesStore::new(3600);
    store.push_at("k", 1.0, true, SensorFormat::Percent, 5, 1_000_000);
    store.push_at("k", 2.0, true, SensorFormat::Percent, 5, 1_030_000);
    let s = store.get("k");
    let times: Vec<u64> = s.iter().map(|p| p.t).collect();
    assert_eq!(times, vec![1_000_000, 1_005_000, 1_010_000, 1_015_000, 1_020_000, 1_025_000, 1_030_000]);
    assert!(s[1..6].iter().all(|p| p.v.is_none()));
    assert_eq!(s[6].v, Some(2.0));
}

#[test]
fn push_drops_points_older_than_the_duration() {
    let mut store: TimeSeriesStore<f64> = TimeSeriesStore::new(60);
    store.push_at("k", 1.0, true, SensorFormat::Percent, 10, 1_000_000);
    store.push_at("k", 2.0, true, SensorFormat::Percent, 10, 1_030_000);
    store.push_at("k", 3.0, true, SensorFormat::Percent, 10, 1_060_000);
    store.push_at("k", 4.0, true, SensorFormat::Percent, 10, 1_090_000);
    let s = store.get("k");
    assert_eq!(s.len(), 3);
    assert_eq!(s[0].t, 1_030_000);
    assert_eq!(s[2].v, Some(4.0));
}

#[test]
fn push_keeps_at_most_3600_points() {
    let mut store: TimeSeriesStore<f64> = TimeSeriesStore::new(100_000);
    for i in 0..3601u64 {
        store.push_at("k", i as f64, true, SensorFormat::Percent, 1, 1_000_000 + i * 1000);
    }
    let s = store.get("k");
    assert_eq!(s.len(), 3600);
    assert_eq!(s[0].v, Some(1.0));
    assert_eq!(s[3599].v, Some(3600.0));
}

#[test]
fn store_keeps_at_least_a_minute() {
    let store: TimeSeriesStore<f64> = TimeSeriesStore::new(10);
    assert_eq!(store.max_duration_secs(), 60);
    let store: TimeSeriesStore<f64> = TimeSeriesStore::new(600);
    assert_eq!(store.max_duration_secs(), 600);
}

#[test]
fn restore_drops_old_points_and_leading_gaps() {
    let mut store: TimeSeriesStore<f64> = TimeSeriesStore::new(60);
    let points = vec![
        TimePoint { t: 1_000, v: Some(1.0) },
        TimePoint { t: 50_000, v: None },
        TimePoint { t: 60_000, v: Some(2.0) },
    ];
    let gaps_only = vec![TimePoint { t: 70_000, v: None }];
    store.restore_at(
        1,
        vec![("a".to_string(), points), ("b".to_string(), gaps_only)],
        vec![("a".to_string(), "percent".to_string()), ("b".to_string(), "bogus".to_string())],
        100_000,
    );
    let a = store.get("a");
    assert_eq!(a.len(), 1);
    assert_eq!(a[0].t, 60_000);
    assert!(store.get("b").is_empty());
    assert_eq!(store.get_format("a"), Some(SensorFormat::Percent));
    assert_eq!(store.get_format("b"), None);
}

#[test]
fn restore_ignores_other_versions() {
    let mut store: TimeSeriesStore<f64> = TimeSeriesStore::new(60);
    store.restore_at(
        2,
        vec![("a".to_string(), vec![TimePoint { t: 99_000, v: Some(1.0) }])],
        vec![],
        100_000,
    );
    assert!(store.get("a").is_empty());
    assert!(store.keys().is_empty());
}

#[test]
fn clear_forgets_everything() {
    let mut store: TimeSeriesStore<f64> = TimeSeriesStore::new(60);
    store.push_at("k", 1.0, true, SensorFormat::Percent, 10, 1_000_000);
    store.clear();
    assert!(store.get("k").is_empty());
    assert_eq!(store.get_format("k"), None);
    assert!(store.formats().is_empty());
}
