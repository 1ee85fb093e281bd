use battery_monitor::{aggregate_battery_metrics, merge_group, MergeError, Sample};

fn reading(
    ts: i64,
    source: &str,
    energy_now: Option<u64>,
    energy_full: Option<u64>,
    energy_full_design: Option<u64>,
    capacity: Option<u64>,
    status: Option<&str>,
) -> Sample {
    Sample {
        ts,
        percentage: None,
        capacity_pct: capacity,
        health_pct: None,
        energy_now_mwh: energy_now,
        energy_full_mwh: energy_full,
        energy_full_design_mwh: energy_full_design,
        status: status.map(|s| s.to_string()),
        source_path: source.to_string(),
    }
}

#[test]
fn aggregate_battery_metrics_combines_multiple_batteries() {
    let metrics = vec![
        reading(1000, "BAT0", Some(10_000), Some(20_000), Some(25_000), Some(9_000), Some("Discharging")),
        reading(1000, "BAT1", Some(5_000), Some(10_000), Some(15_000), Some(9_500), Some("Charging")),
    ];

    let aggregated = aggregate_battery_metrics(&metrics);
    assert_eq!(aggregated.len(), 1);
    let merged = &aggregated[0];

    assert_eq!(merged.energy_now_mwh, Some(15_000));
    assert_eq!(merged.source_path, "BAT0+BAT1");
    assert_eq!(merged.energy_full_mwh, Some(30_000));
    assert_eq!(merged.energy_full_design_mwh, Some(40_000));
    let percentage = merged.percentage.unwrap() as f64 / 100.0;
    assert!((percentage - 50.0).abs() < 1e-6);
    let health = merged.health_pct.unwrap() as f64 / 100.0;
    assert!((health - 75.0).abs() < 1e-6);
    assert_eq!(merged.capacity_pct, Some(9_250));
    assert_eq!(merged.status.as_deref(), Some("mixed"));
}

#[test]
fn aggregate_battery_metrics_groups_by_timestamp() {
    let metrics = vec![
        reading(1000, "BAT0", Some(1_000), Some(2_000), Some(3_000), None, Some("Discharging")),
        reading(2000, "BAT0", Some(2_000), Some(4_000), Some(6_000), None, Some("Discharging")),
        reading(1000, "BAT1", Some(500), Some(1_000), Some(1_500), None, Some("Discharging")),
    ];

    let aggregated = aggregate_battery_metrics(&metrics);

    let ts1: Vec<&Sample> = aggregated.iter().filter(|m| m.ts == 1000).collect();
    let ts2: Vec<&Sample> = aggregated.iter().filter(|m| m.ts == 2000).collect();
    assert_eq!(ts1.len(), 1);
    assert_eq!(ts2.len(), 1);
    assert_eq!(ts1[0].energy_now_mwh, Some(1_500));
    assert_eq!(ts2[0].energy_now_mwh, Some(2_000));
    assert_eq!(ts1[0].status.as_deref(), Some("Discharging"));
}

#[test]
fn merged_readings_come_out_in_time_order() {
    let metrics = vec![
        reading(3000, "BAT0", Some(3), None, None, None, None),
        reading(1000, "BAT0", Some(1), None, None, None, None),
        reading(2000, "BAT0", Some(2), None, None, None, None),
        reading(1000, "BAT1", Some(4), None, None, None, None),
    ];
    let aggregated = aggregate_battery_metrics(&metrics);
    let times: Vec<i64> = aggregated.iter().map(|m| m.ts).collect();
    assert_eq!(times, vec![1000, 2000, 3000]);
    assert_eq!(aggregated[0].energy_now_mwh, Some(5));
}

#[test]
fn absent_energies_stay_absent() {
    let metrics = vec![
        reading(1000, "BAT0", None, Some(20_000), None, None, None),
        reading(1000, "BAT1", None, None, None, None, None),
    ];
    let merged = &aggregate_battery_metrics(&metrics)[0];
    assert_eq!(merged.energy_now_mwh, None);
    assert_eq!(merged.energy_full_mwh, Some(20_000));
    assert_eq!(merged.energy_full_design_mwh, None);
    assert_eq!(merged.percentage, None);
    assert_eq!(merged.status, None);
}

#[test]
fn percentages_fall_back_to_mean_of_readings() {
    let mut a = reading(1000, "BAT0", None, None, None, Some(8_000), None);
    a.percentage = Some(4_000);
    a.health_pct = Some(9_000);
    let mut b = reading(1000, "BAT1", None, None, None, None, None);
    b.percentage = Some(6_001);
    b.health_pct = Some(8_000);
    let merged = &aggregate_battery_metrics(&vec![a, b])[0];
    assert_eq!(merged.percentage, Some(5_000));
    assert_eq!(merged.health_pct, Some(8_500));
    assert_eq!(merged.capacity_pct, Some(8_000));
}

#[test]
fn zero_full_energy_falls_back_to_mean() {
    let mut a = reading(1000, "BAT0", Some(5_000), Some(0), None, None, None);
    a.percentage = Some(7_700);
    let merged = &aggregate_battery_metrics(&vec![a])[0];
    assert_eq!(merged.percentage, Some(7_700));
}

#[test]
fn one_status_is_kept_as_it_is() {
    let metrics = vec![
        reading(1000, "BAT0", Some(1), None, None, None, Some("Charging")),
        reading(1000, "BAT1", Some(1), None, None, None, None),
        reading(1000, "BAT2", Some(1), None, None, None, Some("Charging")),
    ];
    let merged = &aggregate_battery_metrics(&metrics)[0];
    assert_eq!(merged.status.as_deref(), Some("Charging"));
}

#[test]
fn statuses_differing_in_case_are_mixed() {
    let metrics = vec![
        reading(1000, "BAT0", Some(1), None, None, None, Some("Charging")),
        reading(1000, "BAT1", Some(1), None, None, None, Some("charging")),
    ];
    let merged = &aggregate_battery_metrics(&metrics)[0];
    assert_eq!(merged.status.as_deref(), Some("mixed"));
}

#[test]
fn sources_are_basenames_sorted_and_deduplicated() {
    let metrics = vec![
        reading(1000, "/sys/class/power_supply/BAT1", Some(1), None, None, None, None),
        reading(1000, "/sys/class/power_supply/BAT0", Some(1), None, None, None, None),
        reading(1000, "/other/BAT1", Some(1), None, None, None, None),
    ];
    let merged = &aggregate_battery_metrics(&metrics)[0];
    assert_eq!(merged.source_path, "BAT0+BAT1");
}

#[test]
fn merging_twice_keeps_the_fields() {
    let metrics = vec![
        reading(1000, "BAT0", Some(10_000), Some(20_000), Some(25_000), Some(9_000), Some("Discharging")),
        reading(1000, "BAT1", Some(5_000), Some(10_000), Some(15_000), Some(9_500), Some("Charging")),
        reading(2000, "BAT0", Some(9_000), Some(20_000), None, None, None),
    ];
    let once = aggregate_battery_metrics(&metrics);
    let twice = aggregate_battery_metrics(&once);
    assert_eq!(once.len(), twice.len());
    for (a, b) in once.iter().zip(twice.iter()) {
        assert_eq!(a.ts, b.ts);
        assert_eq!(a.percentage, b.percentage);
        assert_eq!(a.capacity_pct, b.capacity_pct);
        assert_eq!(a.health_pct, b.health_pct);
        assert_eq!(a.energy_now_mwh, b.energy_now_mwh);
        assert_eq!(a.energy_full_mwh, b.energy_full_mwh);
        assert_eq!(a.energy_full_design_mwh, b.energy_full_design_mwh);
        assert_eq!(a.status, b.status);
    }
}

#[test]
fn empty_input_gives_empty_output() {
    assert!(aggregate_battery_metrics(&Vec::new()).is_empty());
}

#[test]
fn merging_an_empty_group_is_an_error() {
    assert_eq!(merge_group(5, &Vec::new()).unwrap_err(), MergeError::EmptyGroup);
    let one = vec![reading(5, "BAT0", Some(7), None, None, None, None)];
    let merged = merge_group(5, &one).unwrap();
    assert_eq!(merged.ts, 5);
    assert_eq!(merged.energy_now_mwh, Some(7));
}
