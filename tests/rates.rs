use battery_monitor::{
    average_charge_w, average_discharge_w, average_rates, estimate_runtime_hours, format_runtime,
    AverageRates, Sample,
};

fn sample(
    ts_secs: i64,
    energy_now_wh_milli: u64,
    energy_full: Option<u64>,
    energy_full_design: Option<u64>,
    status: Option<&str>,
) -> Sample {
    Sample {
        ts: ts_secs * 1000,
        percentage: None,
        capacity_pct: None,
        health_pct: None,
        energy_now_mwh: Some(energy_now_wh_milli),
        energy_full_mwh: energy_full,
        energy_full_design_mwh: energy_full_design,
        status: status.map(|s| s.to_string()),
        source_path: "/dev/null".to_string(),
    }
}

fn watts(mw: u128) -> f64 {
    mw as f64 / 1000.0
}

fn hours(secs: u128) -> f64 {
    secs as f64 / 3600.0
}

#[test]
fn average_discharge_and_runtime_estimates() {
    let samples = vec![
        sample(0, 60_000, Some(60_000), Some(70_000), None),
        sample(300, 59_600, Some(60_000), Some(70_000), None),
        sample(600, 59_200, Some(60_000), Some(70_000), None),
    ];
    let avg = average_discharge_w(&samples).unwrap();
    let runtime = estimate_runtime_hours(Some(avg), samples.last().unwrap()).unwrap();
    assert!((watts(avg) - 4.8).abs() < 0.01);
    assert!((hours(runtime) - 12.5).abs() < 0.01);
    assert_eq!(format_runtime(Some(runtime)), "12h30m");

    let design_sample = sample(3600, 55_000, None, Some(80_000), None);
    let design_runtime = estimate_runtime_hours(Some(avg), &design_sample).unwrap();
    assert!((hours(design_runtime) - 16.67).abs() < 0.02);
}

#[test]
fn average_discharge_ignores_large_gaps() {
    let samples = vec![
        sample(0, 60_000, Some(60_000), Some(70_000), None),
        sample(300, 59_500, Some(60_000), Some(70_000), None),
        sample(1800, 59_400, Some(60_000), Some(70_000), None),
    ];
    let avg = average_discharge_w(&samples).unwrap();
    assert!((watts(avg) - 6.0).abs() < 0.01);

    let runtime = estimate_runtime_hours(Some(avg), samples.last().unwrap()).unwrap();
    assert!((hours(runtime) - 10.0).abs() < 0.01);
}

#[test]
fn average_discharge_ignores_charging_segments() {
    let samples = vec![
        sample(0, 60_000, Some(60_000), Some(70_000), Some("Discharging")),
        sample(300, 59_000, Some(60_000), Some(70_000), Some("Discharging")),
        sample(600, 60_000, Some(60_000), Some(70_000), Some("Charging")),
        sample(900, 59_500, Some(60_000), Some(70_000), Some("Discharging")),
        sample(1200, 59_000, Some(60_000), Some(70_000), Some("Discharging")),
    ];
    let avg = average_discharge_w(&samples).unwrap();
    assert!((watts(avg) - 9.0).abs() < 0.01);
}

#[test]
fn average_charge_tracks_charging_only() {
    let samples = vec![
        sample(0, 50_000, Some(60_000), Some(70_000), Some("Charging")),
        sample(300, 52_000, Some(60_000), Some(70_000), Some("Charging")),
        sample(600, 52_500, Some(60_000), Some(70_000), Some("Charging")),
        sample(900, 52_200, Some(60_000), Some(70_000), Some("Discharging")),
        sample(1200, 53_000, Some(60_000), Some(70_000), Some("Charging")),
        sample(1500, 54_500, Some(60_000), Some(70_000), Some("Charging")),
    ];
    let avg = average_charge_w(&samples).unwrap();
    assert!((watts(avg) - 16.0).abs() < 0.01);
}

#[test]
fn average_rates_compute_charge_and_discharge_together() {
    let samples = vec![
        sample(0, 50_000, Some(60_000), Some(70_000), Some("Charging")),
        sample(300, 51_000, Some(60_000), Some(70_000), Some("Charging")),
        sample(600, 52_000, Some(60_000), Some(70_000), Some("Charging")),
        sample(900, 51_500, Some(60_000), Some(70_000), Some("Discharging")),
        sample(1200, 51_000, Some(60_000), Some(70_000), Some("Discharging")),
    ];

    let rates = average_rates(&samples);
    assert!((watts(rates.charge_mw.unwrap()) - 12.0).abs() < 0.01);
    assert!((watts(rates.discharge_mw.unwrap()) - 6.0).abs() < 0.01);
}

#[test]
fn rates_are_exact_in_milliwatts() {
    let samples = vec![
        sample(0, 60_000, None, None, None),
        sample(300, 59_600, None, None, None),
        sample(600, 59_200, None, None, None),
    ];
    assert_eq!(
        average_rates(&samples),
        AverageRates { discharge_mw: Some(4_800), charge_mw: None }
    );
}

#[test]
fn readings_without_energy_are_skipped() {
    let mut gap = sample(150, 0, None, None, None);
    gap.energy_now_mwh = None;
    let samples = vec![sample(0, 60_000, None, None, None), gap, sample(300, 59_500, None, None, None)];
    assert_eq!(average_discharge_w(&samples), Some(6_000));
}

#[test]
fn out_of_order_and_equal_times_are_skipped() {
    let samples = vec![
        sample(600, 60_000, None, None, None),
        sample(300, 59_000, None, None, None),
        sample(300, 58_000, None, None, None),
        sample(600, 57_700, None, None, None),
    ];
    // Only the last pair (300 s -> 600 s, 300 mWh) counts.
    assert_eq!(average_discharge_w(&samples), Some(3_600));
}

#[test]
fn status_comparison_ignores_case() {
    let samples = vec![
        sample(0, 50_000, None, None, Some("CHARGING")),
        sample(300, 51_000, None, None, Some("charging")),
    ];
    assert_eq!(average_charge_w(&samples), Some(12_000));
    let unknown = vec![sample(0, 50_000, None, None, None), sample(300, 51_000, None, None, None)];
    assert_eq!(average_charge_w(&unknown), None);
}

#[test]
fn no_pairs_means_no_rates() {
    assert_eq!(average_rates(&Vec::new()), AverageRates { discharge_mw: None, charge_mw: None });
    let one = vec![sample(0, 50_000, None, None, None)];
    assert_eq!(average_rates(&one), AverageRates { discharge_mw: None, charge_mw: None });
    let flat = vec![sample(0, 50_000, None, None, None), sample(60, 50_000, None, None, None)];
    assert_eq!(average_rates(&flat), AverageRates { discharge_mw: None, charge_mw: None });
}

#[test]
fn runtime_needs_rate_and_capacity() {
    let s = sample(0, 1, Some(60_000), Some(70_000), None);
    assert_eq!(estimate_runtime_hours(None, &s), None);
    assert_eq!(estimate_runtime_hours(Some(0), &s), None);
    assert_eq!(estimate_runtime_hours(Some(6_000), &s), Some(36_000));
    let none = sample(0, 1, None, None, None);
    assert_eq!(estimate_runtime_hours(Some(6_000), &none), None);
    let zero = sample(0, 1, Some(0), Some(70_000), None);
    assert_eq!(estimate_runtime_hours(Some(6_000), &zero), None);
}

#[test]
fn runtime_text_pads_minutes() {
    assert_eq!(format_runtime(None), "--");
    assert_eq!(format_runtime(Some(3_900)), "1h05m");
    assert_eq!(format_runtime(Some(59)), "0h00m");
    assert_eq!(format_runtime(Some(36_000 * 10 + 59 * 60)), "100h59m");
}

#[test]
fn charging_and_discharging_runs_are_independent() {
    let charging = vec![
        sample(0, 50_000, None, None, Some("Charging")),
        sample(300, 51_000, None, None, Some("charging")),
    ];
    let discharging = vec![
        sample(600, 50_500, None, None, Some("Discharging")),
        sample(900, 50_000, None, None, Some("DISCHARGING")),
    ];
    let mut both = charging.clone();
    both.extend(discharging.iter().cloned());
    let rates = average_rates(&both);
    assert_eq!(rates.charge_mw, average_rates(&charging).charge_mw);
    assert_eq!(rates.discharge_mw, average_rates(&discharging).discharge_mw);
    assert_eq!(rates, AverageRates { discharge_mw: Some(6_000), charge_mw: Some(12_000) });
}
