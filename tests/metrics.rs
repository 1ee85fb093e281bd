use battery_monitor::{metric_kinds_for_presets, normalize_presets, Config, MetricKind, ReportPreset};

#[test]
fn metric_kind_labels_round_trip() {
    let kinds = [
        MetricKind::CpuUsage,
        MetricKind::CpuFrequency,
        MetricKind::GpuUsage,
        MetricKind::GpuFrequency,
        MetricKind::NetworkBytes,
        MetricKind::MemoryUsage,
        MetricKind::DiskUsage,
        MetricKind::Temperature,
        MetricKind::PowerDraw,
    ];
    for kind in kinds {
        assert_eq!(MetricKind::from_label(kind.as_str()), Some(kind));
    }
    assert_eq!(MetricKind::CpuUsage.as_str(), "cpu_usage");
    assert_eq!(MetricKind::PowerDraw.as_str(), "power_draw");
    assert_eq!(MetricKind::from_label("battery"), None);
    assert_eq!(MetricKind::from_label("CPU_USAGE"), None);
}

#[test]
fn presets_are_sorted_and_deduplicated() {
    assert_eq!(normalize_presets(Vec::new()), vec![ReportPreset::Battery]);
    assert_eq!(
        normalize_presets(vec![ReportPreset::Disk, ReportPreset::Cpu, ReportPreset::Disk]),
        vec![ReportPreset::Cpu, ReportPreset::Disk]
    );
}

#[test]
fn preset_kinds_are_sorted_by_label() {
    let kinds = metric_kinds_for_presets(&vec![
        ReportPreset::Temperature,
        ReportPreset::Cpu,
        ReportPreset::Battery,
        ReportPreset::Cpu,
    ]);
    assert_eq!(
        kinds,
        vec![
            MetricKind::CpuFrequency,
            MetricKind::CpuUsage,
            MetricKind::PowerDraw,
            MetricKind::Temperature,
        ]
    );
    let labels: Vec<&str> = kinds.iter().map(|k| k.as_str()).collect();
    let mut sorted = labels.clone();
    sorted.sort();
    assert_eq!(labels, sorted);
    assert!(metric_kinds_for_presets(&Vec::new()).is_empty());
}

#[test]
fn default_config_polls_every_minute() {
    let config = Config::default();
    assert_eq!(config.poll_interval_secs, 60);
    assert_eq!(config.battery, None);
    assert_eq!(config.database_path, "battery.db");
}
