//! Report buckets: their width for a window, and the local-time-aligned
//! start of the bucket that holds a timestamp.
use vstd::prelude::*;
use chrono::{Local, MappedLocalTime, TimeZone};
use crate::timeframe::Timeframe;

verus! {

/// Bucket width in seconds for a window of `seconds` (none: all of history).
pub open spec fn bucket_width_spec(seconds: Option<u64>) -> i64 {
    match seconds {
        None => 604800,
        Some(w) => if w <= 21600 {
            1200
        } else if w <= 86400 {
            3600
        } else if w <= 259200 {
            7200
        } else if w <= 604800 {
            21600
        } else if w <= 2592000 {
            86400
        } else if w <= 7776000 {
            259200
        } else {
            604800
        },
    }
}

/// Bucket width in seconds for a report window: 20 minutes up to 6 hours,
/// 1 hour up to a day, 2 hours up to 3 days, 6 hours up to a week, a day up to
/// 30 days, 3 days up to 90 days, and a week beyond or for all of history.
pub fn bucket_span_seconds(timeframe: &Timeframe) -> (r: i64)
    ensures
        r == bucket_width_spec(timeframe.seconds),
{
    match timeframe.seconds {
        None => 7 * 24 * 3600,
        Some(window) => {
            if window <= 6 * 3600 {
                20 * 60
            } else if window <= 24 * 3600 {
                3600
            } else if window <= 3 * 24 * 3600 {
                2 * 3600
            } else if window <= 7 * 24 * 3600 {
                6 * 3600
            } else if window <= 30 * 24 * 3600 {
                24 * 3600
            } else if window <= 90 * 24 * 3600 {
                3 * 24 * 3600
            } else {
                7 * 24 * 3600
            }
        },
    }
}

/// `x / d` rounded towards negative infinity.
fn floor_div(x: i128, d: i128) -> (q: i128)
    requires
        d > 0,
        x > i128::MIN,
    ensures
        q == x / d,
{
    if x >= 0 {
        ((x as u128) / (d as u128)) as i128
    } else {
        let n = (-x) as u128;
        let du = d as u128;
        let c = (n + du - 1) / du;
        proof {
            let xi = x as int;
            let di = d as int;
            let q = xi / di;
            let r = xi % di;
            vstd::arithmetic::div_mod::lemma_fundamental_div_mod(xi, di);
            vstd::arithmetic::div_mod::lemma_mod_bound(xi, di);
            assert(-xi + di - 1 == (-q) * di + (di - 1 - r)) by (nonlinear_arith)
                requires
                    xi == di * q + r,
            ;
            vstd::arithmetic::div_mod::lemma_fundamental_div_mod_converse_div(
                -xi + di - 1,
                di,
                -q,
                di - 1 - r,
            );
            assert(q < 0) by (nonlinear_arith)
                requires
                    xi == di * q + r,
                    xi < 0,
                    0 <= r,
                    di > 0,
            ;
            assert(q >= xi) by (nonlinear_arith)
                requires
                    xi == di * q + r,
                    xi < 0,
                    r < di,
                    di > 0,
            ;
        }
        -(c as i128)
    }
}

/// Start, in milliseconds, of the bucket of `width_secs` seconds that holds
/// `ts_ms`, aligned in the time zone `offset_secs` seconds east of UTC, and
/// raised to zero if it falls before the epoch.
pub open spec fn bucket_start_spec(ts_ms: int, width_secs: int, offset_secs: int) -> int {
    let w = width_secs * 1000;
    let off = offset_secs * 1000;
    let aligned = (ts_ms + off) / w * w - off;
    if aligned < 0 {
        0
    } else {
        aligned
    }
}

/// `v` is the start of the bucket of `width_secs` seconds that holds `ts_ms`
/// in some time zone less than a day away from UTC.
pub open spec fn is_bucket_start(v: int, ts_ms: int, width_secs: int) -> bool {
    exists|off: int| -86400 < off < 86400 && v == bucket_start_spec(ts_ms, width_secs, off)
}

/// Start of the bucket that holds `ts_ms` (milliseconds) for buckets of
/// `width_secs` seconds in a time zone `offset_secs` seconds east of UTC:
/// the local time is floored to a multiple of the width and turned back into
/// Unix time, never before the epoch.
pub fn bucket_start_at(ts_ms: i64, width_secs: i64, offset_secs: i32) -> (r: i64)
    requires
        width_secs > 0,
        width_secs <= i64::MAX / 1000,
        -86400 < offset_secs < 86400,
    ensures
        r == bucket_start_spec(ts_ms as int, width_secs as int, offset_secs as int),
{
    let w = (width_secs as i128) * 1000;
    let off = (offset_secs as i128) * 1000;
    let local = ts_ms as i128 + off;
    let q = floor_div(local, w);
    proof {
        vstd::arithmetic::div_mod::lemma_fundamental_div_mod(local as int, w as int);
        vstd::arithmetic::div_mod::lemma_mod_bound(local as int, w as int);
        assert(q * w <= local) by (nonlinear_arith)
            requires
                local == w * q + local % w,
                0 <= local % w,
        ;
        assert(q * w > local - w) by (nonlinear_arith)
            requires
                local == w * q + local % w,
                local % w < w,
        ;
    }
    let aligned = q * w - off;
    if aligned < 0 {
        0
    } else {
        aligned as i64
    }
}

/// Latest Unix time, in seconds, that every use of local time here handles:
/// chrono's dates reach about the year 262,000 either side of the epoch.
pub const LOCAL_SECS_LIMIT: i64 = 8_000_000_000_000;

/// Latest timestamp, in milliseconds, whose bucket `bucket_start` always
/// finds.
pub const LOCAL_MS_LIMIT: i64 = 8_000_000_000_000_000;

/// Relies on chrono's `Local::timestamp_opt` and `FixedOffset::local_minus_utc`:
/// the local time zone's offset east of UTC, in seconds, at Unix time `secs`,
/// or none where chrono cannot represent that time. Local time is computed
/// from UTC, so every second count that `DateTime::from_timestamp` accepts
/// (all within `LOCAL_SECS_LIMIT` of the epoch) gives a single result. A
/// chrono offset always lies strictly within one day.
#[verifier::external_body]
fn local_offset_at(secs: i64) -> (r: Option<i32>)
    ensures
        r matches Some(o) ==> -86400 < o < 86400,
        -LOCAL_SECS_LIMIT <= secs <= LOCAL_SECS_LIMIT ==> r is Some,
{
    match Local.timestamp_opt(secs, 0) {
        MappedLocalTime::Single(dt) => Some(dt.offset().local_minus_utc()),
        MappedLocalTime::Ambiguous(_, _) => None,
        MappedLocalTime::None => None,
    }
}

/// Start of the bucket that holds `ts_ms`, aligned to the machine's local
/// time: see `bucket_start_at`. Always found within `LOCAL_MS_LIMIT` of the
/// epoch; none beyond it where the local time zone cannot be determined.
pub fn bucket_start(ts_ms: i64, bucket_seconds: i64) -> (r: Option<i64>)
    requires
        bucket_seconds > 0,
        bucket_seconds <= i64::MAX / 1000,
    ensures
        r matches Some(v) ==> is_bucket_start(v as int, ts_ms as int, bucket_seconds as int),
        -LOCAL_MS_LIMIT <= ts_ms <= LOCAL_MS_LIMIT ==> r is Some,
{
    let secs = floor_div(ts_ms as i128, 1000) as i64;
    proof {
        let q = (ts_ms as int) / 1000;
        vstd::arithmetic::div_mod::lemma_fundamental_div_mod(ts_ms as int, 1000);
        vstd::arithmetic::div_mod::lemma_mod_bound(ts_ms as int, 1000);
        if -LOCAL_MS_LIMIT <= ts_ms <= LOCAL_MS_LIMIT {
            assert(-LOCAL_SECS_LIMIT <= q <= LOCAL_SECS_LIMIT);
        }
    }
    match local_offset_at(secs) {
        Some(off) => Some(bucket_start_at(ts_ms, bucket_seconds, off)),
        None => None,
    }
}

/// `v` is a multiple of the width in the time zone `offset_secs` east of UTC.
pub open spec fn aligned_in_zone(v: int, width_secs: int, offset_secs: int) -> bool {
    (v + offset_secs * 1000) % (width_secs * 1000) == 0
}

/// What `bucket_start` returns never lies after the timestamp (from the
/// epoch on), lies less than one bucket width before it, and from one width
/// past the epoch on is a multiple of the width in the local time it used.
pub proof fn lemma_bucket_start_result_bounds(v: int, ts_ms: int, width_secs: int)
    requires
        is_bucket_start(v, ts_ms, width_secs),
        0 <= ts_ms,
        width_secs > 0,
    ensures
        0 <= v <= ts_ms,
        ts_ms - v < width_secs * 1000,
        ts_ms >= width_secs * 1000 ==> exists|off: int|
            -86400 < off < 86400 && #[trigger] aligned_in_zone(v, width_secs, off),
{
    let off = choose|off: int| -86400 < off < 86400 && v == bucket_start_spec(ts_ms, width_secs, off);
    lemma_bucket_start_bounds(ts_ms, width_secs, off);
    if ts_ms >= width_secs * 1000 {
        assert(aligned_in_zone(v, width_secs, off));
    }
}

/// A bucket start never lies after the timestamp (from the epoch on), lies
/// less than one bucket width before it, and from one width past the epoch
/// on it is aligned to a multiple of the width in local time.
pub proof fn lemma_bucket_start_bounds(ts_ms: int, width_secs: int, offset_secs: int)
    requires
        0 <= ts_ms,
        width_secs > 0,
        -86400 < offset_secs < 86400,
    ensures
        0 <= bucket_start_spec(ts_ms, width_secs, offset_secs) <= ts_ms,
        ts_ms - bucket_start_spec(ts_ms, width_secs, offset_secs) < width_secs * 1000,
        ts_ms >= width_secs * 1000 ==> (bucket_start_spec(ts_ms, width_secs, offset_secs)
            + offset_secs * 1000) % (width_secs * 1000) == 0,
{
    let w = width_secs * 1000;
    let off = offset_secs * 1000;
    let local = ts_ms + off;
    let q = local / w;
    vstd::arithmetic::div_mod::lemma_fundamental_div_mod(local, w);
    vstd::arithmetic::div_mod::lemma_mod_bound(local, w);
    assert(q * w <= local) by (nonlinear_arith)
        requires
            local == w * q + local % w,
            0 <= local % w,
    ;
    assert(q * w > local - w) by (nonlinear_arith)
        requires
            local == w * q + local % w,
            local % w < w,
    ;
    vstd::arithmetic::div_mod::lemma_mod_multiples_basic(q, w);
}

} // verus!
