use battery_monitor::{
    battery_bucket_stats, graph_file_name, sanitize_component, stats_by_bucket,
    within_energy_limits, Sample,
};

fn reading(ts: i64, pct: Option<u64>, energy: Option<u64>, status: Option<&str>) -> Sample {
    Sample {
        ts,
        percentage: pct,
        capacity_pct: None,
        health_pct: None,
        energy_now_mwh: energy,
        energy_full_mwh: None,
        energy_full_design_mwh: None,
        status: status.map(|s| s.to_string()),
        source_path: "BAT0".to_string(),
    }
}

#[test]
fn buckets_summarise_their_readings() {
    let samples = vec![
        reading(0, Some(8_000), Some(60_000), Some("Discharging")),
        reading(300_000, Some(7_900), Some(59_600), Some("Discharging")),
        reading(1_200_000, None, Some(59_000), Some("Charging")),
        reading(600_000, Some(7_800), Some(59_200), Some("Discharging")),
    ];
    let keys = vec![0, 0, 1_200_000, 0];
    let stats = stats_by_bucket(&samples, &keys);
    assert_eq!(stats.len(), 2);

    assert_eq!(stats[0].start, 0);
    assert_eq!(stats[0].count, 3);
    assert_eq!(stats[0].min_pct, Some(7_800));
    assert_eq!(stats[0].avg_pct, Some(7_900));
    assert_eq!(stats[0].max_pct, Some(8_000));
    assert_eq!(stats[0].rates.discharge_mw, Some(4_800));
    assert_eq!(stats[0].rates.charge_mw, None);
    assert_eq!(stats[0].latest_status.as_deref(), Some("Discharging"));

    assert_eq!(stats[1].start, 1_200_000);
    assert_eq!(stats[1].count, 1);
    assert_eq!(stats[1].min_pct, None);
    assert_eq!(stats[1].avg_pct, None);
    assert_eq!(stats[1].latest_status.as_deref(), Some("Charging"));
}

#[test]
fn local_buckets_cover_every_reading() {
    let samples = vec![
        reading(1_700_000_000_000, Some(5_000), Some(50_000), None),
        reading(1_700_000_300_000, Some(4_900), Some(49_500), None),
    ];
    let stats = battery_bucket_stats(&samples, 3_600).unwrap();
    let total: usize = stats.iter().map(|s| s.count).sum();
    assert_eq!(total, 2);
    for s in &stats {
        assert!(s.start <= 1_700_000_300_000);
    }
}

#[test]
fn zone_names_are_made_safe() {
    assert_eq!(sanitize_component("CET"), "CET");
    assert_eq!(sanitize_component("+01:00"), "_01_00");
    assert_eq!(sanitize_component("Europe/Berlin"), "Europe_Berlin");
}

#[test]
fn graph_file_name_has_timeframe_and_timestamp() {
    assert_eq!(
        graph_file_name("last_3_hours", "2025-11-28_01-30-42", "UTC"),
        "battery_monitor_last_3_hours_2025-11-28_01-30-42_UTC.png"
    );
    assert_eq!(
        graph_file_name("last-1-day", "2025-01-01_00-00-00", "+05:30"),
        "battery_monitor_last_1_day_2025-01-01_00-00-00__05_30.png"
    );
}

#[test]
fn energy_limits_are_checked() {
    let small = vec![reading(0, None, Some(60_000), None)];
    assert!(within_energy_limits(&small));
    let huge = vec![
        reading(0, None, Some(u64::MAX / 20_000), None),
        reading(0, None, Some(u64::MAX / 20_000), None),
        reading(1, None, Some(1_000), None),
    ];
    assert!(!within_energy_limits(&huge));
}

#[test]
fn empty_input_gives_no_buckets() {
    let stats = battery_bucket_stats(&Vec::new(), 3_600).unwrap();
    assert!(stats.is_empty());
}

#[test]
fn in_range_times_always_get_a_bucket() {
    assert!(battery_monitor::bucket_start(0, 3_600).is_some());
    assert!(battery_monitor::bucket_start(-86_400_000, 1_200).is_some());
    assert!(battery_monitor::bucket_start(8_000_000_000_000_000, 604_800).is_some());
    assert!(battery_monitor::bucket_start(i64::MAX, 3_600).is_none());
}
