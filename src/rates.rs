//! Charge and discharge power estimated from energy deltas between adjacent
//! readings, and the runtime projected from it.
use vstd::prelude::*;
use vstd::string::StringExecFns;
use crate::sample::Sample;
use crate::aggregate::lemma_filter_exact;
use crate::text::{eq_ignore_ascii_case, eq_ignore_ascii_case_spec, push_decimal, push_two_digits,
    decimal};

verus! {

/// Longest gap between two readings, in milliseconds, over which a rate is
/// still taken: five minutes.
pub const MAX_GAP_MS: i64 = 300000;

/// Milliseconds in one hour.
pub const MS_PER_HOUR: u128 = 3600000;

/// A reading counts as discharging when its status says so, ignoring ASCII
/// case, or when it has no status at all.
pub open spec fn discharging_spec(s: Sample) -> bool {
    match s.status {
        Some(st) => eq_ignore_ascii_case_spec(st@, "discharging"@),
        None => true,
    }
}

/// A reading counts as charging only when its status says so, ignoring ASCII
/// case.
pub open spec fn charging_spec(s: Sample) -> bool {
    match s.status {
        Some(st) => eq_ignore_ascii_case_spec(st@, "charging"@),
        None => false,
    }
}

/// The readings that carry an energy value, in order.
pub open spec fn energy_bearing(s: Seq<Sample>) -> Seq<Sample> {
    s.filter(|x: Sample| x.energy_now_mwh is Some)
}

/// The energy value of a reading, zero when absent.
pub open spec fn now_of(s: Sample) -> int {
    match s.energy_now_mwh {
        Some(v) => v as int,
        None => 0,
    }
}

/// The pair is close enough in time, and in order, for a rate to be taken.
pub open spec fn pair_in_window(prev: Sample, curr: Sample) -> bool {
    0 < curr.ts - prev.ts <= MAX_GAP_MS
}

/// Energy lost and time elapsed that a pair adds to the discharge totals.
pub open spec fn discharge_step(prev: Sample, curr: Sample) -> (int, int) {
    if pair_in_window(prev, curr) && now_of(curr) < now_of(prev) && discharging_spec(prev)
        && discharging_spec(curr) {
        (now_of(prev) - now_of(curr), curr.ts - prev.ts)
    } else {
        (0, 0)
    }
}

/// Energy gained and time elapsed that a pair adds to the charge totals.
pub open spec fn charge_step(prev: Sample, curr: Sample) -> (int, int) {
    if pair_in_window(prev, curr) && now_of(curr) > now_of(prev) && charging_spec(prev)
        && charging_spec(curr) {
        (now_of(curr) - now_of(prev), curr.ts - prev.ts)
    } else {
        (0, 0)
    }
}

/// Sum of the discharge steps over the adjacent pairs of `e`: (energy, time).
pub open spec fn discharge_totals(e: Seq<Sample>) -> (int, int)
    decreases e.len(),
{
    if e.len() < 2 {
        (0, 0)
    } else {
        let rest = discharge_totals(e.drop_last());
        let step = discharge_step(e[e.len() - 2], e.last());
        (rest.0 + step.0, rest.1 + step.1)
    }
}

/// Sum of the charge steps over the adjacent pairs of `e`: (energy, time).
pub open spec fn charge_totals(e: Seq<Sample>) -> (int, int)
    decreases e.len(),
{
    if e.len() < 2 {
        (0, 0)
    } else {
        let rest = charge_totals(e.drop_last());
        let step = charge_step(e[e.len() - 2], e.last());
        (rest.0 + step.0, rest.1 + step.1)
    }
}

/// Average power in milliwatts (rounded down) for `energy` milliwatt-hours
/// over `time_ms` milliseconds; none when either total is zero.
pub open spec fn average_spec(totals: (int, int)) -> Option<int> {
    if totals.1 != 0 && totals.0 != 0 {
        Some(totals.0 * (MS_PER_HOUR as int) / totals.1)
    } else {
        None
    }
}

pub open spec fn opt_wide(o: Option<u128>) -> Option<int> {
    match o {
        Some(v) => Some(v as int),
        None => None,
    }
}

/// Average charge and discharge power, in milliwatts.
#[derive(Debug, PartialEq, Eq, Structural)]
pub struct AverageRates {
    pub discharge_mw: Option<u128>,
    pub charge_mw: Option<u128>,
}

/// Running totals of energy moved (milliwatt-hours) and time (milliseconds).
struct RateAccumulator {
    delta: u128,
    duration_ms: u128,
}

impl RateAccumulator {
    /// Bounds after `k` pairs: each pair adds at most `u64::MAX` energy, and
    /// between 1 ms and `MAX_GAP_MS` of time, so the energy total is also at
    /// most `u64::MAX` times the time total.
    spec fn bounded(&self, k: int) -> bool {
        &&& 0 <= k <= usize::MAX
        &&& self.delta <= k * (u64::MAX as int)
        &&& self.duration_ms <= k * (MAX_GAP_MS as int)
        &&& self.delta <= (u64::MAX as int) * self.duration_ms
    }

    fn record(&mut self, delta_mwh: u64, dt_ms: i64, Ghost(k): Ghost<int>)
        requires
            old(self).bounded(k),
            k < usize::MAX,
            0 < dt_ms <= MAX_GAP_MS,
        ensures
            final(self).bounded(k + 1),
            final(self).delta == old(self).delta + delta_mwh,
            final(self).duration_ms == old(self).duration_ms + dt_ms,
    {
        proof {
            assert((u64::MAX as int) * (self.duration_ms + dt_ms) == (u64::MAX as int)
                * self.duration_ms + (u64::MAX as int) * dt_ms) by (nonlinear_arith);
            assert(delta_mwh <= (u64::MAX as int) * dt_ms) by (nonlinear_arith)
                requires
                    delta_mwh <= u64::MAX,
                    dt_ms >= 1,
            ;
        }
        self.delta = self.delta + delta_mwh as u128;
        self.duration_ms = self.duration_ms + dt_ms as u128;
    }

    fn average(&self, Ghost(k): Ghost<int>) -> (r: Option<u128>)
        requires
            self.bounded(k),
        ensures
            opt_wide(r) == average_spec((self.delta as int, self.duration_ms as int)),
    {
        if self.duration_ms == 0 || self.delta == 0 {
            return None;
        }
        let d = self.delta;
        let t = self.duration_ms;
        let q = d / t;
        let rem = d % t;
        proof {
            let k3 = MS_PER_HOUR as int;
            vstd::arithmetic::div_mod::lemma_fundamental_div_mod(d as int, t as int);
            vstd::arithmetic::div_mod::lemma_div_is_ordered(d as int, (u64::MAX as int) * t, t as int);
            vstd::arithmetic::mul::lemma_mul_is_commutative(u64::MAX as int, t as int);
            vstd::arithmetic::div_mod::lemma_div_by_multiple(u64::MAX as int, t as int);
            assert(q <= u64::MAX);
            assert(rem < t);
            assert(t <= (usize::MAX as int) * (MAX_GAP_MS as int));
            assert(rem * k3 < t * k3) by (nonlinear_arith)
                requires
                    rem < t,
                    k3 > 0,
            ;
            assert(q * k3 <= (u64::MAX as int) * k3) by (nonlinear_arith)
                requires
                    q <= u64::MAX,
                    k3 > 0,
            ;
            assert(t * k3 <= (usize::MAX as int) * (MAX_GAP_MS as int) * k3) by (nonlinear_arith)
                requires
                    t <= (usize::MAX as int) * (MAX_GAP_MS as int),
                    k3 > 0,
            ;
            assert((d as int) * k3 == (rem * k3) + (q * k3) * t) by (nonlinear_arith)
                requires
                    d == t * q + rem,
            ;
            vstd::arithmetic::div_mod::lemma_hoist_over_denominator(rem * k3, q * k3, t as nat);
            vstd::arithmetic::div_mod::lemma_div_is_ordered(rem * k3, t * k3, t as int);
            vstd::arithmetic::div_mod::lemma_div_by_multiple(k3, t as int);
            vstd::arithmetic::mul::lemma_mul_is_commutative(k3, t as int);
            vstd::arithmetic::div_mod::lemma_div_pos_is_pos(rem * k3, t as int);
        }
        Some(q * MS_PER_HOUR + rem * MS_PER_HOUR / t)
    }
}

/// Whether a reading counts as discharging (no status counts as discharging).
pub fn is_discharging(sample: &Sample) -> (r: bool)
    ensures
        r == discharging_spec(*sample),
{
    match &sample.status {
        Some(st) => {
            proof {
                reveal_strlit("discharging");
            }
            eq_ignore_ascii_case(st.as_str(), "discharging")
        },
        None => true,
    }
}

/// Whether a reading counts as charging (no status does not).
pub fn is_charging(sample: &Sample) -> (r: bool)
    ensures
        r == charging_spec(*sample),
{
    match &sample.status {
        Some(st) => {
            proof {
                reveal_strlit("charging");
            }
            eq_ignore_ascii_case(st.as_str(), "charging")
        },
        None => false,
    }
}

/// Copies out the readings of `samples` that carry an energy value, in order.
fn energy_readings(samples: &Vec<Sample>) -> (e: Vec<Sample>)
    ensures
        e@ == energy_bearing(samples@),
{
    let mut e: Vec<Sample> = Vec::new();
    let mut i: usize = 0;
    while i < samples.len()
        invariant
            i <= samples.len(),
            e@ == energy_bearing(samples@.subrange(0, i as int)),
        decreases samples.len() - i,
    {
        let ghost pre = samples@.subrange(0, i as int);
        let ghost next = samples@.subrange(0, i as int + 1);
        assert(next.drop_last() =~= pre);
        assert(next.last() == samples@[i as int]);
        reveal(Seq::filter);
        if samples[i].energy_now_mwh.is_some() {
            e.push(samples[i].duplicate());
        }
        i = i + 1;
    }
    assert(samples@.subrange(0, samples.len() as int) =~= samples@);
    e
}

/// Average discharge and charge power over the readings, in milliwatts.
///
/// Only readings with an energy value take part. Each adjacent pair of them
/// that is in order and at most five minutes apart adds its energy change to
/// the discharge totals when the energy fell and both readings count as
/// discharging, or to the charge totals when it rose and both count as
/// charging. Each average is the energy total over the time total, and is
/// absent when either total is zero.
pub fn average_rates(samples: &Vec<Sample>) -> (r: AverageRates)
    ensures
        opt_wide(r.discharge_mw) == average_spec(discharge_totals(energy_bearing(samples@))),
        opt_wide(r.charge_mw) == average_spec(charge_totals(energy_bearing(samples@))),
{
    let e = energy_readings(samples);
    let mut discharge = RateAccumulator { delta: 0, duration_ms: 0 };
    let mut charge = RateAccumulator { delta: 0, duration_ms: 0 };
    if e.len() < 2 {
        return AverageRates { discharge_mw: None, charge_mw: None };
    }
    let mut i: usize = 1;
    while i < e.len()
        invariant
            1 <= i <= e.len(),
            forall|k: int| 0 <= k < e@.len() ==> e@[k].energy_now_mwh is Some,
            discharge.bounded(i - 1),
            charge.bounded(i - 1),
            (discharge.delta as int, discharge.duration_ms as int) == discharge_totals(
                e@.subrange(0, i as int),
            ),
            (charge.delta as int, charge.duration_ms as int) == charge_totals(
                e@.subrange(0, i as int),
            ),
        decreases e.len() - i,
    {
        let prev = &e[i - 1];
        let curr = &e[i];
        let ghost next = e@.subrange(0, i as int + 1);
        assert(next.drop_last() =~= e@.subrange(0, i as int));
        assert(next[next.len() - 2] == e@[i - 1]);
        assert(next.last() == e@[i as int]);
        let ghost k = (i - 1) as int;
        if prev.ts <= curr.ts && (curr.ts as i128) - (prev.ts as i128) <= MAX_GAP_MS as i128
            && prev.ts != curr.ts {
            let dt = curr.ts - prev.ts;
            let p = match prev.energy_now_mwh {
                Some(v) => v,
                None => 0,
            };
            let c = match curr.energy_now_mwh {
                Some(v) => v,
                None => 0,
            };
            if c > p && is_charging(prev) && is_charging(curr) {
                charge.record(c - p, dt, Ghost(k));
                assert(discharge.bounded(k + 1));
            } else if c < p && is_discharging(prev) && is_discharging(curr) {
                discharge.record(p - c, dt, Ghost(k));
                assert(charge.bounded(k + 1));
            } else {
                assert(discharge.bounded(k + 1));
                assert(charge.bounded(k + 1));
            }
        } else {
            proof {
                assert(discharge.bounded(k + 1));
                assert(charge.bounded(k + 1));
            }
        }
        i = i + 1;
    }
    assert(e@.subrange(0, e.len() as int) =~= e@);
    AverageRates {
        discharge_mw: discharge.average(Ghost((e.len() - 1) as int)),
        charge_mw: charge.average(Ghost((e.len() - 1) as int)),
    }
}

/// Average discharge power over the readings, in milliwatts.
pub fn average_discharge_w(samples: &Vec<Sample>) -> (r: Option<u128>)
    ensures
        opt_wide(r) == average_spec(discharge_totals(energy_bearing(samples@))),
{
    average_rates(samples).discharge_mw
}

/// Average charge power over the readings, in milliwatts.
pub fn average_charge_w(samples: &Vec<Sample>) -> (r: Option<u128>)
    ensures
        opt_wide(r) == average_spec(charge_totals(energy_bearing(samples@))),
{
    average_rates(samples).charge_mw
}

/// The capacity a runtime is projected from: the full energy, else the design
/// energy.
pub open spec fn capacity_for_runtime(s: Sample) -> Option<u64> {
    if s.energy_full_mwh is Some {
        s.energy_full_mwh
    } else {
        s.energy_full_design_mwh
    }
}

/// Runtime in seconds (rounded down) that `capacity` milliwatt-hours last at
/// `rate` milliwatts; none without a positive rate and a positive capacity.
pub open spec fn runtime_spec(rate: Option<u128>, capacity: Option<u64>) -> Option<int> {
    match (rate, capacity) {
        (Some(w), Some(c)) => if w > 0 && c > 0 {
            Some((c as int) * 3600 / (w as int))
        } else {
            None
        },
        _ => None,
    }
}

/// Projected runtime, in seconds, of the reading's capacity at the given
/// discharge power (milliwatts).
pub fn estimate_runtime_hours(avg_discharge_mw: Option<u128>, current_sample: &Sample) -> (r:
    Option<u128>)
    ensures
        opt_wide(r) == runtime_spec(avg_discharge_mw, capacity_for_runtime(*current_sample)),
{
    let avg = match avg_discharge_mw {
        Some(a) => a,
        None => return None,
    };
    if avg == 0 {
        return None;
    }
    let capacity = match current_sample.energy_full_mwh {
        Some(c) => c,
        None => match current_sample.energy_full_design_mwh {
            Some(c) => c,
            None => return None,
        },
    };
    if capacity == 0 {
        return None;
    }
    proof {
        vstd::arithmetic::div_mod::lemma_div_basics_5((capacity as int) * 3600, avg as int);
    }
    Some(capacity as u128 * 3600 / avg)
}

/// `h` hours and `mm` minutes, minutes always with two digits: `12h05m`.
pub open spec fn runtime_text(seconds: int) -> Seq<char> {
    let minutes = seconds / 60;
    let hours = minutes / 60;
    let mins = minutes % 60;
    decimal(hours as nat) + seq!['h'] + (if mins < 10 {
        seq!['0']
    } else {
        Seq::empty()
    }) + decimal(mins as nat) + seq!['m']
}

/// Renders a runtime in seconds as whole hours and minutes (`12h30m`), or
/// `--` when there is none.
pub fn format_runtime(seconds: Option<u128>) -> (r: String)
    ensures
        seconds is None ==> r@ == "--"@,
        seconds matches Some(s) ==> r@ == runtime_text(s as int),
{
    match seconds {
        None => {
            proof {
                reveal_strlit("--");
            }
            String::from_str("--")
        },
        Some(s) => {
            let minutes = s / 60;
            let mut out = String::new();
            push_decimal(&mut out, minutes / 60);
            out.append("h");
            push_two_digits(&mut out, minutes % 60);
            out.append("m");
            proof {
                reveal_strlit("h");
                reveal_strlit("m");
                assert(out@ =~= runtime_text(s as int));
            }
            out
        },
    }
}

proof fn lemma_discharge_concat(a: Seq<Sample>, b: Seq<Sample>)
    requires
        a.len() > 0,
        b.len() > 0,
    ensures
        discharge_totals(a + b) == (
            discharge_totals(a).0 + discharge_step(a.last(), b[0]).0 + discharge_totals(b).0,
            discharge_totals(a).1 + discharge_step(a.last(), b[0]).1 + discharge_totals(b).1,
        ),
    decreases b.len(),
{
    if b.len() == 1 {
        assert((a + b).drop_last() =~= a);
    } else {
        let bd = b.drop_last();
        lemma_discharge_concat(a, bd);
        assert((a + b).drop_last() =~= a + bd);
        assert((a + b)[(a + b).len() - 2] == b[b.len() - 2]);
    }
}

proof fn lemma_charge_concat(a: Seq<Sample>, b: Seq<Sample>)
    requires
        a.len() > 0,
        b.len() > 0,
    ensures
        charge_totals(a + b) == (
            charge_totals(a).0 + charge_step(a.last(), b[0]).0 + charge_totals(b).0,
            charge_totals(a).1 + charge_step(a.last(), b[0]).1 + charge_totals(b).1,
        ),
    decreases b.len(),
{
    if b.len() == 1 {
        assert((a + b).drop_last() =~= a);
    } else {
        let bd = b.drop_last();
        lemma_charge_concat(a, bd);
        assert((a + b).drop_last() =~= a + bd);
        assert((a + b)[(a + b).len() - 2] == b[b.len() - 2]);
    }
}

/// No reading counts as both charging and discharging.
pub proof fn lemma_not_both(s: Sample)
    ensures
        !(charging_spec(s) && discharging_spec(s)),
        s.status is Some && discharging_spec(s) ==> !charging_spec(s),
{
    reveal_strlit("charging");
    reveal_strlit("discharging");
}

proof fn lemma_no_discharge_in(s: Seq<Sample>)
    requires
        forall|i: int| 0 <= i < s.len() ==> charging_spec(#[trigger] s[i]),
    ensures
        discharge_totals(s) == (0int, 0int),
    decreases s.len(),
{
    if s.len() >= 2 {
        let d = s.drop_last();
        assert forall|i: int| 0 <= i < d.len() implies charging_spec(#[trigger] d[i]) by {
            assert(d[i] == s[i]);
        }
        lemma_no_discharge_in(d);
        lemma_not_both(s.last());
    }
}

proof fn lemma_no_charge_in(s: Seq<Sample>)
    requires
        forall|i: int| 0 <= i < s.len() ==> (#[trigger] s[i]).status is Some && discharging_spec(s[i]),
    ensures
        charge_totals(s) == (0int, 0int),
    decreases s.len(),
{
    if s.len() >= 2 {
        let d = s.drop_last();
        assert forall|i: int| 0 <= i < d.len() implies (#[trigger] d[i]).status is Some
            && discharging_spec(d[i]) by {
            assert(d[i] == s[i]);
        }
        lemma_no_charge_in(d);
        lemma_not_both(s.last());
    }
}

proof fn lemma_all_energy_bearing(s: Seq<Sample>)
    requires
        forall|i: int| 0 <= i < s.len() ==> (#[trigger] s[i]).energy_now_mwh is Some,
    ensures
        energy_bearing(s) == s,
{
    lemma_filter_exact(s, |x: Sample| x.energy_now_mwh is Some, 0, s.len() as int);
    assert(s.subrange(0, s.len() as int) =~= s);
}

/// A run of charging readings next to a run of readings explicitly
/// discharging, in either order, gives each rate from its own run alone:
/// the pair across the status change counts for neither.
pub proof fn lemma_runs_rates_independent(a: Seq<Sample>, b: Seq<Sample>)
    requires
        a.len() > 0,
        b.len() > 0,
        forall|i: int|
            0 <= i < a.len() ==> (#[trigger] a[i]).energy_now_mwh is Some && charging_spec(a[i]),
        forall|i: int|
            0 <= i < b.len() ==> (#[trigger] b[i]).energy_now_mwh is Some && b[i].status is Some
                && discharging_spec(b[i]),
    ensures
        average_spec(charge_totals(energy_bearing(a + b))) == average_spec(
            charge_totals(energy_bearing(a)),
        ),
        average_spec(discharge_totals(energy_bearing(a + b))) == average_spec(
            discharge_totals(energy_bearing(b)),
        ),
        average_spec(charge_totals(energy_bearing(b + a))) == average_spec(
            charge_totals(energy_bearing(a)),
        ),
        average_spec(discharge_totals(energy_bearing(b + a))) == average_spec(
            discharge_totals(energy_bearing(b)),
        ),
{
    let ab = a + b;
    let ba = b + a;
    assert forall|i: int| 0 <= i < ab.len() implies (#[trigger] ab[i]).energy_now_mwh is Some by {
        if i >= a.len() {
            assert(ab[i] == b[i - a.len()]);
        }
    }
    assert forall|i: int| 0 <= i < ba.len() implies (#[trigger] ba[i]).energy_now_mwh is Some by {
        if i >= b.len() {
            assert(ba[i] == a[i - b.len()]);
        }
    }
    lemma_all_energy_bearing(a);
    lemma_all_energy_bearing(b);
    lemma_all_energy_bearing(ab);
    lemma_all_energy_bearing(ba);
    lemma_no_discharge_in(a);
    lemma_no_charge_in(b);
    lemma_charge_concat(a, b);
    lemma_discharge_concat(a, b);
    lemma_charge_concat(b, a);
    lemma_discharge_concat(b, a);
    lemma_not_both(a.last());
    lemma_not_both(a[0]);
    lemma_not_both(b.last());
    lemma_not_both(b[0]);
    assert(charging_spec(a[a.len() - 1]));
    assert(charging_spec(a[0]));
}

} // verus!
