use battery_monitor::{battery_sample, energy_mwh, RawBattery};

fn raw() -> RawBattery {
    RawBattery {
        energy_now_uwh: None,
        energy_full_uwh: None,
        energy_full_design_uwh: None,
        charge_now_uah: None,
        charge_full_uah: None,
        charge_full_design_uah: None,
        voltage_uv: None,
        capacity_pct: None,
        status: None,
    }
}

#[test]
fn read_battery_uses_energy_fields() {
    let mut r = raw();
    r.energy_now_uwh = Some(40_000_000);
    r.energy_full_uwh = Some(80_000_000);
    r.energy_full_design_uwh = Some(90_000_000);
    r.capacity_pct = Some(95);
    r.status = Some("Discharging".to_string());
    let s = battery_sample(1_000, "/sys/class/power_supply/BAT1".to_string(), r);
    assert_eq!(s.energy_now_mwh, Some(40_000));
    assert_eq!(s.energy_full_mwh, Some(80_000));
    assert_eq!(s.energy_full_design_mwh, Some(90_000));
    assert_eq!(s.percentage, Some(5_000));
    assert_eq!(s.health_pct, Some(8_888));
    assert_eq!(s.capacity_pct, Some(9_500));
    assert_eq!(s.status.as_deref(), Some("Discharging"));
    assert_eq!(s.ts, 1_000);
}

#[test]
fn read_battery_uses_charge_and_voltage_when_energy_missing() {
    let mut r = raw();
    r.charge_now_uah = Some(2_000_000);
    r.charge_full_uah = Some(4_000_000);
    r.charge_full_design_uah = Some(4_500_000);
    r.voltage_uv = Some(11_000_000);
    r.capacity_pct = Some(90);
    let s = battery_sample(0, "BAT0".to_string(), r);
    assert_eq!(s.energy_now_mwh, Some(22_000));
    assert_eq!(s.energy_full_mwh, Some(44_000));
    assert_eq!(s.energy_full_design_mwh, Some(49_500));
    assert_eq!(s.percentage, Some(5_000));
    assert_eq!(s.health_pct, Some(8_888));
    assert_eq!(s.capacity_pct, Some(9_000));
}

#[test]
fn energy_prefers_the_energy_counter() {
    assert_eq!(energy_mwh(Some(59_600_000), Some(1), Some(1)), Some(59_600));
    assert_eq!(energy_mwh(None, Some(1_000_000), None), None);
    assert_eq!(energy_mwh(None, None, None), None);
    assert_eq!(energy_mwh(None, Some(u32::MAX), Some(u32::MAX)), Some(18_446_744_065));
}

#[test]
fn format_power_displays_watts() {
    assert_eq!(battery_monitor::format_power(Some(15_500)), "15.50W");
    assert_eq!(battery_monitor::format_power(None), "--");
    assert_eq!(battery_monitor::format_power(Some(4_809)), "4.81W");
    assert_eq!(battery_monitor::format_power(Some(4_804)), "4.80W");
    assert_eq!(battery_monitor::format_power(Some(9_995)), "10.00W");
}

#[test]
fn format_percent_displays_correctly() {
    assert_eq!(battery_monitor::format_percent(Some(7_550)), "75.5%");
    assert_eq!(battery_monitor::format_percent(None), "--");
    assert_eq!(battery_monitor::format_percent(Some(4)), "0.0%");
    assert_eq!(battery_monitor::format_percent(Some(5)), "0.1%");
    assert_eq!(battery_monitor::format_percent(Some(9_996)), "100.0%");
}
