//! One battery reading, and the arithmetic on optional fields that merging uses.
use vstd::prelude::*;

verus! {

/// Largest energy total, in milliwatt-hours, that one merged reading may hold:
/// a total times 10000 (the scale of a percentage) still fits in 64 bits.
pub const ENERGY_TOTAL_MAX: u64 = 1844674407370955;

/// One reading. Raw readings carry one physical source each; a merged reading
/// carries the `+`-joined names of all the sources it combines.
///
/// `ts` is in milliseconds since the Unix epoch; the percentages are in
/// hundredths of a percent; the energies are in milliwatt-hours.
#[derive(Clone, Debug)]
pub struct Sample {
    pub ts: i64,
    pub percentage: Option<u64>,
    pub capacity_pct: Option<u64>,
    pub health_pct: Option<u64>,
    pub energy_now_mwh: Option<u64>,
    pub energy_full_mwh: Option<u64>,
    pub energy_full_design_mwh: Option<u64>,
    pub status: Option<String>,
    pub source_path: String,
}

impl Sample {
    /// A field-by-field copy.
    pub fn duplicate(&self) -> (r: Sample)
        ensures
            r == *self,
    {
        let status = match &self.status {
            Some(s) => Some(s.clone()),
            None => None,
        };
        Sample {
            ts: self.ts,
            percentage: self.percentage,
            capacity_pct: self.capacity_pct,
            health_pct: self.health_pct,
            energy_now_mwh: self.energy_now_mwh,
            energy_full_mwh: self.energy_full_mwh,
            energy_full_design_mwh: self.energy_full_design_mwh,
            status,
            source_path: self.source_path.clone(),
        }
    }
}

/// An optional machine integer seen as an optional mathematical integer.
pub open spec fn opt_int(o: Option<u64>) -> Option<int> {
    match o {
        Some(v) => Some(v as int),
        None => None,
    }
}

/// An optional string seen as an optional character sequence.
pub open spec fn opt_str(o: Option<String>) -> Option<Seq<char>> {
    match o {
        Some(s) => Some(s@),
        None => None,
    }
}

/// Sum of the values present in `s`.
pub open spec fn total(s: Seq<Option<u64>>) -> int
    decreases s.len(),
{
    if s.len() == 0 {
        0
    } else {
        total(s.drop_last()) + match s.last() {
            Some(v) => v as int,
            None => 0,
        }
    }
}

/// Number of values present in `s`.
pub open spec fn count_present(s: Seq<Option<u64>>) -> nat
    decreases s.len(),
{
    if s.len() == 0 {
        0
    } else {
        count_present(s.drop_last()) + if s.last() is Some {
            1nat
        } else {
            0nat
        }
    }
}

/// The sum of the present values, or `None` when no value is present.
pub open spec fn sum_spec(s: Seq<Option<u64>>) -> Option<int> {
    if count_present(s) == 0 {
        None
    } else {
        Some(total(s))
    }
}

/// The arithmetic mean (rounded down) of the present values, or `None` when no
/// value is present.
pub open spec fn mean_spec(s: Seq<Option<u64>>) -> Option<int> {
    if count_present(s) == 0 {
        None
    } else {
        Some(total(s) / (count_present(s) as int))
    }
}

/// `num / den` as a percentage in hundredths (rounded down), when both are
/// present and the denominator is not zero.
pub open spec fn ratio_spec(num: Option<int>, den: Option<int>) -> Option<int> {
    match (num, den) {
        (Some(n), Some(d)) => if d != 0 {
            Some(n * 10000 / d)
        } else {
            None
        },
        _ => None,
    }
}

pub open spec fn energy_now_of(s: Seq<Sample>) -> Seq<Option<u64>> {
    s.map_values(|x: Sample| x.energy_now_mwh)
}

pub open spec fn energy_full_of(s: Seq<Sample>) -> Seq<Option<u64>> {
    s.map_values(|x: Sample| x.energy_full_mwh)
}

pub open spec fn energy_design_of(s: Seq<Sample>) -> Seq<Option<u64>> {
    s.map_values(|x: Sample| x.energy_full_design_mwh)
}

pub open spec fn percentage_of(s: Seq<Sample>) -> Seq<Option<u64>> {
    s.map_values(|x: Sample| x.percentage)
}

pub open spec fn capacity_of(s: Seq<Sample>) -> Seq<Option<u64>> {
    s.map_values(|x: Sample| x.capacity_pct)
}

pub open spec fn health_of(s: Seq<Sample>) -> Seq<Option<u64>> {
    s.map_values(|x: Sample| x.health_pct)
}

/// Sum of present values, or `None` when none is present. The sum must fit.
pub fn sum_or_none(values: &Vec<Option<u64>>) -> (r: Option<u64>)
    requires
        total(values@) <= u64::MAX,
    ensures
        opt_int(r) == sum_spec(values@),
{
    let mut acc: u64 = 0;
    let mut has_value = false;
    let mut i: usize = 0;
    while i < values.len()
        invariant
            i <= values.len(),
            total(values@) <= u64::MAX,
            acc as int == total(values@.subrange(0, i as int)),
            has_value == (count_present(values@.subrange(0, i as int)) > 0),
        decreases values.len() - i,
    {
        proof {
            lemma_total_prefix(values@, i as int + 1);
            assert(values@.subrange(0, i as int + 1).drop_last() =~= values@.subrange(0, i as int));
        }
        if let Some(v) = values[i] {
            acc = acc + v;
            has_value = true;
        }
        i = i + 1;
    }
    assert(values@.subrange(0, values.len() as int) =~= values@);
    if has_value {
        Some(acc)
    } else {
        None
    }
}

/// Mean (rounded down) of present values, or `None` when none is present.
pub fn avg_or_none(values: &Vec<Option<u64>>) -> (r: Option<u64>)
    ensures
        opt_int(r) == mean_spec(values@),
{
    let mut acc: u128 = 0;
    let mut count: u64 = 0;
    let mut i: usize = 0;
    while i < values.len()
        invariant
            i <= values.len(),
            acc as int == total(values@.subrange(0, i as int)),
            count as int == count_present(values@.subrange(0, i as int)),
            acc <= count * (u64::MAX as int),
            count <= i,
        decreases values.len() - i,
    {
        proof {
            assert(values@.subrange(0, i as int + 1).drop_last() =~= values@.subrange(0, i as int));
        }
        if let Some(v) = values[i] {
            acc = acc + v as u128;
            count = count + 1;
        }
        i = i + 1;
    }
    assert(values@.subrange(0, values.len() as int) =~= values@);
    if count == 0 {
        None
    } else {
        let c = count as u128;
        let m = acc / c;
        proof {
            lemma_mean_bound(acc as int, c as int);
        }
        Some(m as u64)
    }
}

/// `num / den` in hundredths of a percent, when both are present and `den`
/// is not zero.
pub fn percent(num: Option<u64>, den: Option<u64>) -> (r: Option<u64>)
    requires
        num is Some ==> num->0 <= ENERGY_TOTAL_MAX,
    ensures
        opt_int(r) == ratio_spec(opt_int(num), opt_int(den)),
{
    match (num, den) {
        (Some(n), Some(d)) => {
            if d != 0 {
                proof {
                    lemma_ratio_bound(n as int, d as int);
                }
                Some(n * 10000 / d)
            } else {
                None
            }
        },
        _ => None,
    }
}

proof fn lemma_mean_bound(acc: int, c: int)
    requires
        0 <= acc <= c * (u64::MAX as int),
        c > 0,
    ensures
        acc / c <= u64::MAX,
{
    vstd::arithmetic::div_mod::lemma_div_is_ordered(acc, c * (u64::MAX as int), c);
    vstd::arithmetic::mul::lemma_mul_is_commutative(c, u64::MAX as int);
    vstd::arithmetic::div_mod::lemma_div_by_multiple(u64::MAX as int, c);
}

proof fn lemma_ratio_bound(n: int, d: int)
    requires
        0 <= n <= ENERGY_TOTAL_MAX,
        d > 0,
    ensures
        n * 10000 <= u64::MAX,
        0 <= n * 10000 / d <= u64::MAX,
{
    vstd::arithmetic::div_mod::lemma_div_basics_5(n * 10000, d);
}

/// A total over a prefix is at most the total over the whole sequence.
pub proof fn lemma_total_prefix(s: Seq<Option<u64>>, k: int)
    requires
        0 <= k <= s.len(),
    ensures
        0 <= total(s.subrange(0, k)) <= total(s),
    decreases s.len() - k,
{
    if k < s.len() {
        lemma_total_prefix(s, k + 1);
        assert(s.subrange(0, k + 1).drop_last() =~= s.subrange(0, k));
        lemma_total_nonneg(s.subrange(0, k));
    } else {
        assert(s.subrange(0, k) =~= s);
        lemma_total_nonneg(s);
    }
}

pub proof fn lemma_total_nonneg(s: Seq<Option<u64>>)
    ensures
        0 <= total(s),
    decreases s.len(),
{
    if s.len() > 0 {
        lemma_total_nonneg(s.drop_last());
    }
}

} // verus!
