//! Per-bucket summaries of merged battery readings: count, percentage
//! spread, average rates and the latest status of each bucket.
use vstd::prelude::*;
use crate::keys::{ascending, insert_key};
use crate::buckets::{bucket_start, is_bucket_start, LOCAL_MS_LIMIT};
use crate::rates::{average_rates, average_spec, charge_totals, discharge_totals, energy_bearing,
    opt_wide, AverageRates};
use crate::sample::{Sample, opt_int, opt_str, mean_spec, percentage_of, avg_or_none};

verus! {

/// Smallest present value, or `None` when none is present.
pub open spec fn min_spec(s: Seq<Option<u64>>) -> Option<int>
    decreases s.len(),
{
    if s.len() == 0 {
        None
    } else {
        let rest = min_spec(s.drop_last());
        match s.last() {
            None => rest,
            Some(v) => match rest {
                None => Some(v as int),
                Some(m) => Some(
                    if (v as int) < m {
                        v as int
                    } else {
                        m
                    },
                ),
            },
        }
    }
}

/// Largest present value, or `None` when none is present.
pub open spec fn max_spec(s: Seq<Option<u64>>) -> Option<int>
    decreases s.len(),
{
    if s.len() == 0 {
        None
    } else {
        let rest = max_spec(s.drop_last());
        match s.last() {
            None => rest,
            Some(v) => match rest {
                None => Some(v as int),
                Some(m) => Some(
                    if (v as int) > m {
                        v as int
                    } else {
                        m
                    },
                ),
            },
        }
    }
}

/// Smallest present value, or `None` when none is present.
pub fn min_or_none(values: &Vec<Option<u64>>) -> (r: Option<u64>)
    ensures
        opt_int(r) == min_spec(values@),
{
    let mut best: Option<u64> = None;
    let mut i: usize = 0;
    while i < values.len()
        invariant
            i <= values.len(),
            opt_int(best) == min_spec(values@.subrange(0, i as int)),
        decreases values.len() - i,
    {
        assert(values@.subrange(0, i as int + 1).drop_last() =~= values@.subrange(0, i as int));
        if let Some(v) = values[i] {
            best = match best {
                None => Some(v),
                Some(m) => if v < m {
                    Some(v)
                } else {
                    Some(m)
                },
            };
        }
        i = i + 1;
    }
    assert(values@.subrange(0, values.len() as int) =~= values@);
    best
}

/// Largest present value, or `None` when none is present.
pub fn max_or_none(values: &Vec<Option<u64>>) -> (r: Option<u64>)
    ensures
        opt_int(r) == max_spec(values@),
{
    let mut best: Option<u64> = None;
    let mut i: usize = 0;
    while i < values.len()
        invariant
            i <= values.len(),
            opt_int(best) == max_spec(values@.subrange(0, i as int)),
        decreases values.len() - i,
    {
        assert(values@.subrange(0, i as int + 1).drop_last() =~= values@.subrange(0, i as int));
        if let Some(v) = values[i] {
            best = match best {
                None => Some(v),
                Some(m) => if v > m {
                    Some(v)
                } else {
                    Some(m)
                },
            };
        }
        i = i + 1;
    }
    assert(values@.subrange(0, values.len() as int) =~= values@);
    best
}

/// Summary of the readings of one bucket.
#[derive(Debug)]
pub struct BucketStats {
    /// Start of the bucket, in milliseconds since the Unix epoch.
    pub start: i64,
    pub count: usize,
    pub min_pct: Option<u64>,
    pub avg_pct: Option<u64>,
    pub max_pct: Option<u64>,
    pub rates: AverageRates,
    pub latest_status: Option<String>,
}

/// The readings among the first `n` whose bucket key is `b`, in order.
pub open spec fn members(s: Seq<Sample>, keys: Seq<i64>, b: i64, n: int) -> Seq<Sample>
    decreases n,
{
    if n <= 0 {
        Seq::empty()
    } else {
        let rest = members(s, keys, b, n - 1);
        if keys[n - 1] == b {
            rest.push(s[n - 1])
        } else {
            rest
        }
    }
}

/// `st` summarises the non-empty readings `m`.
pub open spec fn summarises(st: BucketStats, m: Seq<Sample>) -> bool {
    &&& st.count == m.len()
    &&& opt_int(st.min_pct) == min_spec(percentage_of(m))
    &&& opt_int(st.avg_pct) == mean_spec(percentage_of(m))
    &&& opt_int(st.max_pct) == max_spec(percentage_of(m))
    &&& opt_wide(st.rates.discharge_mw) == average_spec(discharge_totals(energy_bearing(m)))
    &&& opt_wide(st.rates.charge_mw) == average_spec(charge_totals(energy_bearing(m)))
    &&& opt_str(st.latest_status) == opt_str(m.last().status)
}

/// `out` holds one summary per distinct key, ascending by key, each of the
/// readings with that key.
pub open spec fn stats_output(s: Seq<Sample>, keys: Seq<i64>, out: Seq<BucketStats>) -> bool {
    &&& forall|i: int, j: int| 0 <= i < j < out.len() ==> out[i].start < out[j].start
    &&& forall|t: i64| keys.contains(t) <==> (exists|i: int| 0 <= i < out.len() && out[i].start == t)
    &&& forall|i: int|
        0 <= i < out.len() ==> summarises(out[i], members(s, keys, out[i].start, s.len() as int))
}

fn summarise(start: i64, m: &Vec<Sample>) -> (r: BucketStats)
    requires
        m@.len() > 0,
    ensures
        r.start == start,
        summarises(r, m@),
{
    let mut pcts: Vec<Option<u64>> = Vec::new();
    let mut i: usize = 0;
    while i < m.len()
        invariant
            i <= m.len(),
            pcts@ == percentage_of(m@.subrange(0, i as int)),
        decreases m.len() - i,
    {
        assert(m@.subrange(0, i as int + 1) =~= m@.subrange(0, i as int).push(m@[i as int]));
        pcts.push(m[i].percentage);
        assert(pcts@ =~= percentage_of(m@.subrange(0, i as int + 1)));
        i = i + 1;
    }
    assert(m@.subrange(0, m.len() as int) =~= m@);
    let last = m.len() - 1;
    let latest_status = match &m[last].status {
        Some(st) => Some(st.clone()),
        None => None,
    };
    BucketStats {
        start,
        count: m.len(),
        min_pct: min_or_none(&pcts),
        avg_pct: avg_or_none(&pcts),
        max_pct: max_or_none(&pcts),
        rates: average_rates(m),
        latest_status,
    }
}

/// Summaries of the readings grouped by bucket: `keys[i]` is the bucket of
/// `samples[i]`. One summary per distinct key, in ascending order of key.
pub fn stats_by_bucket(samples: &Vec<Sample>, keys: &Vec<i64>) -> (r: Vec<BucketStats>)
    requires
        keys@.len() == samples@.len(),
    ensures
        stats_output(samples@, keys@, r@),
{
    let mut distinct: Vec<i64> = Vec::new();
    let mut i: usize = 0;
    while i < keys.len()
        invariant
            i <= keys.len(),
            ascending(distinct@),
            forall|u: i64|
                distinct@.contains(u) <==> (exists|k: int| 0 <= k < i && keys@[k] == u),
        decreases keys.len() - i,
    {
        distinct = insert_key(distinct, keys[i]);
        i = i + 1;
    }
    assert forall|u: i64| distinct@.contains(u) <==> keys@.contains(u) by {
        if keys@.contains(u) {
            let k = choose|k: int| 0 <= k < keys@.len() && keys@[k] == u;
            assert(0 <= k < i && keys@[k] == u);
        }
    }
    let mut out: Vec<BucketStats> = Vec::new();
    let mut j: usize = 0;
    while j < distinct.len()
        invariant
            keys@.len() == samples@.len(),
            j <= distinct.len(),
            ascending(distinct@),
            forall|u: i64| distinct@.contains(u) <==> keys@.contains(u),
            out@.len() == j,
            forall|a: int| 0 <= a < j ==> out@[a].start == distinct@[a],
            forall|a: int|
                0 <= a < j ==> summarises(
                    #[trigger] out@[a],
                    members(samples@, keys@, out@[a].start, samples@.len() as int),
                ),
        decreases distinct.len() - j,
    {
        let b = distinct[j];
        assert(distinct@.contains(b));
        let mut m: Vec<Sample> = Vec::new();
        let mut k: usize = 0;
        while k < samples.len()
            invariant
                keys@.len() == samples@.len(),
                k <= samples.len(),
                m@ == members(samples@, keys@, b, k as int),
                (exists|q: int| 0 <= q < k && keys@[q] == b) ==> m@.len() > 0,
            decreases samples.len() - k,
        {
            if keys[k] == b {
                m.push(samples[k].duplicate());
            }
            k = k + 1;
        }
        let st = summarise(b, &m);
        out.push(st);
        j = j + 1;
    }
    proof {
        assert forall|t: i64| keys@.contains(t) <==> (exists|i: int|
            0 <= i < out@.len() && out@[i].start == t) by {
            if keys@.contains(t) {
                assert(distinct@.contains(t));
                let a = choose|a: int| 0 <= a < distinct@.len() && distinct@[a] == t;
                assert(out@[a].start == t);
            }
            if exists|i: int| 0 <= i < out@.len() && out@[i].start == t {
                let a = choose|a: int| 0 <= a < out@.len() && out@[a].start == t;
                assert(distinct@[a] == t);
                assert(distinct@.contains(t));
            }
        }
        assert forall|a: int, c: int| 0 <= a < c < out@.len() implies out@[a].start < out@[c].start by {
            assert(out@[a].start == distinct@[a]);
            assert(out@[c].start == distinct@[c]);
        }
    }
    out
}

/// `keys` holds, for each reading, the start of its bucket of `width_secs`
/// seconds in local time, and `out` summarises the readings by those keys.
pub open spec fn local_stats(s: Seq<Sample>, width_secs: int, keys: Seq<i64>, out: Seq<BucketStats>) -> bool {
    &&& keys.len() == s.len()
    &&& forall|i: int|
        0 <= i < keys.len() ==> is_bucket_start(#[trigger] keys[i] as int, s[i].ts as int, width_secs)
    &&& stats_output(s, keys, out)
}

/// Summaries of the readings by bucket of `bucket_seconds` seconds, aligned
/// to the machine's local time. Always given when every reading lies within
/// `LOCAL_MS_LIMIT` of the epoch (an empty input gives no summaries); none
/// where the local time zone cannot be determined for some reading.
pub fn battery_bucket_stats(samples: &Vec<Sample>, bucket_seconds: i64) -> (r: Option<
    Vec<BucketStats>,
>)
    requires
        bucket_seconds > 0,
        bucket_seconds <= i64::MAX / 1000,
    ensures
        r is Some ==> exists|keys: Seq<i64>|
            local_stats(samples@, bucket_seconds as int, keys, r->0@),
        (forall|i: int|
            0 <= i < samples@.len() ==> -LOCAL_MS_LIMIT <= #[trigger] samples@[i].ts
                <= LOCAL_MS_LIMIT) ==> r is Some,
        r is Some ==> (r->0@.len() == 0 <==> samples@.len() == 0),
{
    let mut keys: Vec<i64> = Vec::new();
    let mut i: usize = 0;
    while i < samples.len()
        invariant
            i <= samples.len(),
            bucket_seconds > 0,
            bucket_seconds <= i64::MAX / 1000,
            keys@.len() == i,
            forall|q: int|
                0 <= q < i ==> is_bucket_start(
                    #[trigger] keys@[q] as int,
                    samples@[q].ts as int,
                    bucket_seconds as int,
                ),
        decreases samples.len() - i,
    {
        match bucket_start(samples[i].ts, bucket_seconds) {
            Some(b) => keys.push(b),
            None => {
                assert(!(-LOCAL_MS_LIMIT <= samples@[i as int].ts <= LOCAL_MS_LIMIT));
                return None;
            },
        }
        i = i + 1;
    }
    let out = stats_by_bucket(samples, &keys);
    let r = Some(out);
    assert(local_stats(samples@, bucket_seconds as int, keys@, r->0@));
    proof {
        if out@.len() > 0 {
            assert(keys@.contains(out@[0].start));
        }
        if samples@.len() > 0 {
            assert(keys@.contains(keys@[0]));
            let a = choose|a: int| 0 <= a < out@.len() && out@[a].start == keys@[0];
        }
    }
    r
}

} // verus!
