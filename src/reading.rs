//! One battery's raw kernel counters turned into a reading.
use vstd::prelude::*;
use crate::sample::{Sample, opt_int, ratio_spec, percent};

verus! {

/// Raw counters of one battery as the kernel reports them: energies in
/// microwatt-hours, charges in microampere-hours, voltage in microvolts and
/// capacity in whole percent.
pub struct RawBattery {
    pub energy_now_uwh: Option<u32>,
    pub energy_full_uwh: Option<u32>,
    pub energy_full_design_uwh: Option<u32>,
    pub charge_now_uah: Option<u32>,
    pub charge_full_uah: Option<u32>,
    pub charge_full_design_uah: Option<u32>,
    pub voltage_uv: Option<u32>,
    pub capacity_pct: Option<u32>,
    pub status: Option<String>,
}

/// Energy in milliwatt-hours (rounded down): the energy counter when there
/// is one, else charge times voltage when both are there.
pub open spec fn energy_mwh_spec(energy_uwh: Option<u32>, charge_uah: Option<u32>, voltage_uv: Option<
    u32,
>) -> Option<int> {
    match energy_uwh {
        Some(e) => Some((e as int) / 1000),
        None => match (charge_uah, voltage_uv) {
            (Some(c), Some(v)) => Some((c as int) * (v as int) / 1_000_000_000),
            _ => None,
        },
    }
}

/// Energy in milliwatt-hours from an energy counter, or from charge and
/// voltage.
pub fn energy_mwh(energy_uwh: Option<u32>, charge_uah: Option<u32>, voltage_uv: Option<u32>) -> (r:
    Option<u64>)
    ensures
        opt_int(r) == energy_mwh_spec(energy_uwh, charge_uah, voltage_uv),
        r matches Some(v) ==> v <= 18446744073,
{
    match energy_uwh {
        Some(e) => Some(e as u64 / 1000),
        None => match (charge_uah, voltage_uv) {
            (Some(c), Some(v)) => {
                proof {
                    assert((c as int) * (v as int) <= (u32::MAX as int) * (u32::MAX as int))
                        by (nonlinear_arith)
                        requires
                            c <= u32::MAX,
                            v <= u32::MAX,
                    ;
                }
                let product = c as u64 * v as u64;
                proof {
                    vstd::arithmetic::div_mod::lemma_div_is_ordered(
                        product as int,
                        (u32::MAX as int) * (u32::MAX as int),
                        1_000_000_000,
                    );
                }
                Some(product / 1_000_000_000)
            },
            _ => None,
        },
    }
}

/// The status as reported, the capacity in hundredths of a percent.
pub open spec fn capacity_spec(c: Option<u32>) -> Option<int> {
    match c {
        Some(v) => Some((v as int) * 100),
        None => None,
    }
}

/// The reading of one battery at `ts` (milliseconds): energies from the
/// counters, charge as energy over full energy, health as full energy over
/// design energy, both in hundredths of a percent.
pub fn battery_sample(ts: i64, source_path: String, raw: RawBattery) -> (s: Sample)
    ensures
        s.ts == ts,
        s.source_path == source_path,
        s.status == raw.status,
        opt_int(s.energy_now_mwh) == energy_mwh_spec(
            raw.energy_now_uwh,
            raw.charge_now_uah,
            raw.voltage_uv,
        ),
        opt_int(s.energy_full_mwh) == energy_mwh_spec(
            raw.energy_full_uwh,
            raw.charge_full_uah,
            raw.voltage_uv,
        ),
        opt_int(s.energy_full_design_mwh) == energy_mwh_spec(
            raw.energy_full_design_uwh,
            raw.charge_full_design_uah,
            raw.voltage_uv,
        ),
        opt_int(s.percentage) == ratio_spec(opt_int(s.energy_now_mwh), opt_int(s.energy_full_mwh)),
        opt_int(s.health_pct) == ratio_spec(
            opt_int(s.energy_full_mwh),
            opt_int(s.energy_full_design_mwh),
        ),
        opt_int(s.capacity_pct) == capacity_spec(raw.capacity_pct),
{
    let now = energy_mwh(raw.energy_now_uwh, raw.charge_now_uah, raw.voltage_uv);
    let full = energy_mwh(raw.energy_full_uwh, raw.charge_full_uah, raw.voltage_uv);
    let design = energy_mwh(raw.energy_full_design_uwh, raw.charge_full_design_uah, raw.voltage_uv);
    let capacity = match raw.capacity_pct {
        Some(c) => Some(c as u64 * 100),
        None => None,
    };
    Sample {
        ts,
        percentage: percent(now, full),
        capacity_pct: capacity,
        health_pct: percent(full, design),
        energy_now_mwh: now,
        energy_full_mwh: full,
        energy_full_design_mwh: design,
        status: raw.status,
        source_path,
    }
}

} // verus!
