//! The report window: how far back a report looks.
use vstd::prelude::*;
use vstd::string::StringExecFns;
use crate::text::{decimal, push_decimal};

verus! {

pub const SECONDS_PER_HOUR: u64 = 3600;

pub const SECONDS_PER_DAY: u64 = 86400;

/// A month counts as thirty days.
pub const APPROX_DAYS_PER_MONTH: u64 = 30;

/// A report window: a label, its length in seconds (none for all of
/// history), and the unit count it was built from.
#[derive(Debug, Clone)]
pub struct Timeframe {
    pub label: String,
    pub seconds: Option<u64>,
    pub hours: u64,
    pub days: u64,
    pub months: u64,
}

/// Why a window could not be built.
#[derive(Debug, PartialEq, Eq)]
pub enum TimeframeError {
    /// Hours must be at least 1 when days and months are zero.
    InvalidHours,
    /// The named count was negative.
    NegativeValue(&'static str),
}

impl TimeframeError {
    /// A sentence that describes the error.
    pub fn message(&self) -> (r: String)
        ensures
            *self == TimeframeError::InvalidHours ==> r@
                == "hours must be at least 1 when days and months are zero"@,
            self matches TimeframeError::NegativeValue(name) ==> r@ == name@
                + " must be zero or greater"@,
    {
        match self {
            TimeframeError::InvalidHours => {
                proof {
                    reveal_strlit("hours must be at least 1 when days and months are zero");
                }
                String::from_str("hours must be at least 1 when days and months are zero")
            },
            TimeframeError::NegativeValue(name) => {
                let mut out = String::from_str(name);
                out.append(" must be zero or greater");
                proof {
                    reveal_strlit(" must be zero or greater");
                }
                out
            },
        }
    }
}

/// Fails with `NegativeValue(name)` exactly when `value` is negative.
pub fn validate_non_negative(value: i64, name: &'static str) -> (r: Result<(), TimeframeError>)
    ensures
        value < 0 <==> r is Err,
        r is Err ==> r == Err::<(), TimeframeError>(TimeframeError::NegativeValue(name)),
{
    if value < 0 {
        return Err(TimeframeError::NegativeValue(name));
    }
    Ok(())
}

/// `singular` for a count of one, `plural` otherwise.
pub fn plural_suffix(value: u64, singular: &'static str, plural: &'static str) -> (r: &'static str)
    ensures
        r == if value == 1 {
            singular
        } else {
            plural
        },
{
    if value == 1 {
        singular
    } else {
        plural
    }
}

/// `last_<n>_<unit>`.
pub open spec fn window_label(n: nat, unit: Seq<char>) -> Seq<char> {
    "last_"@ + decimal(n) + "_"@ + unit
}

/// The unit word for a count: singular for one, plural otherwise.
pub open spec fn unit_word(n: nat, singular: Seq<char>, plural: Seq<char>) -> Seq<char> {
    if n == 1 {
        singular
    } else {
        plural
    }
}

fn window_text(n: u64, unit: &str) -> (r: String)
    ensures
        r@ == window_label(n as nat, unit@),
{
    let mut out = String::from_str("last_");
    push_decimal(&mut out, n as u128);
    out.append("_");
    out.append(unit);
    proof {
        reveal_strlit("last_");
        reveal_strlit("_");
        assert(out@ =~= window_label(n as nat, unit@));
    }
    out
}

/// `tf` has the given label, length and counts.
pub open spec fn timeframe_is(
    tf: Timeframe,
    label: Seq<char>,
    seconds: Option<u64>,
    hours: int,
    days: int,
    months: int,
) -> bool {
    &&& tf.label@ == label
    &&& tf.seconds == seconds
    &&& tf.hours == hours
    &&& tf.days == days
    &&& tf.months == months
}

/// Which count is negative first, in the order hours, days, months.
pub open spec fn first_negative(hours: i64, days: i64, months: i64) -> Option<&'static str> {
    if hours < 0 {
        Some("hours")
    } else if days < 0 {
        Some("days")
    } else if months < 0 {
        Some("months")
    } else {
        None
    }
}

/// The window for the given counts, as a report asks for it: months take
/// precedence over days, and days over hours; `all_time` means all of history.
///
/// Each count must be zero or greater; when days and months are both zero,
/// hours must be at least one.
pub fn build_timeframe(hours: i64, days: i64, months: i64, all_time: bool) -> (r: Result<
    Timeframe,
    TimeframeError,
>)
    requires
        hours * 3600 <= u64::MAX,
        days * 86400 <= u64::MAX,
        months * 2592000 <= u64::MAX,
    ensures
        first_negative(hours, days, months) matches Some(name) ==> r == Err::<
            Timeframe,
            TimeframeError,
        >(TimeframeError::NegativeValue(name)),
        first_negative(hours, days, months) is None && all_time ==> r is Ok && timeframe_is(
            r->Ok_0,
            "all"@,
            None,
            0,
            0,
            0,
        ),
        first_negative(hours, days, months) is None && !all_time && months > 0 ==> r is Ok
            && timeframe_is(
            r->Ok_0,
            window_label(months as nat, unit_word(months as nat, "month"@, "months"@)),
            Some((months * 2592000) as u64),
            0,
            0,
            months as int,
        ),
        first_negative(hours, days, months) is None && !all_time && months == 0 && days > 0 ==> r is Ok
            && timeframe_is(
            r->Ok_0,
            window_label(days as nat, unit_word(days as nat, "day"@, "days"@)),
            Some((days * 86400) as u64),
            0,
            days as int,
            0,
        ),
        first_negative(hours, days, months) is None && !all_time && months == 0 && days == 0 && hours
            == 0 ==> r == Err::<Timeframe, TimeframeError>(TimeframeError::InvalidHours),
        first_negative(hours, days, months) is None && !all_time && months == 0 && days == 0 && hours
            > 0 ==> r is Ok && timeframe_is(
            r->Ok_0,
            window_label(hours as nat, unit_word(hours as nat, "hour"@, "hours"@)),
            Some((hours * 3600) as u64),
            hours as int,
            0,
            0,
        ),
{
    validate_non_negative(hours, "hours")?;
    validate_non_negative(days, "days")?;
    validate_non_negative(months, "months")?;
    if all_time {
        proof {
            reveal_strlit("all");
        }
        return Ok(
            Timeframe {
                label: String::from_str("all"),
                seconds: None,
                hours: 0,
                days: 0,
                months: 0,
            },
        );
    }
    if months > 0 {
        let months_u = months as u64;
        let seconds = months_u * (APPROX_DAYS_PER_MONTH * SECONDS_PER_DAY);
        let label = window_text(months_u, plural_suffix(months_u, "month", "months"));
        return Ok(
            Timeframe { label, seconds: Some(seconds), hours: 0, days: 0, months: months_u },
        );
    }
    if days > 0 {
        let days_u = days as u64;
        let seconds = days_u * SECONDS_PER_DAY;
        let label = window_text(days_u, plural_suffix(days_u, "day", "days"));
        return Ok(Timeframe { label, seconds: Some(seconds), hours: 0, days: days_u, months: 0 });
    }
    if hours == 0 {
        return Err(TimeframeError::InvalidHours);
    }
    let hours_u = hours as u64;
    let seconds = hours_u * SECONDS_PER_HOUR;
    let label = window_text(hours_u, plural_suffix(hours_u, "hour", "hours"));
    Ok(Timeframe { label, seconds: Some(seconds), hours: hours_u, days: 0, months: 0 })
}

impl Timeframe {
    /// Start of the window that ends at `now_ms`, in milliseconds since the
    /// Unix epoch; none for all of history.
    pub fn since_timestamp(&self, now_ms: i64) -> (r: Option<i128>)
        ensures
            self.seconds is None ==> r is None,
            self.seconds matches Some(s) ==> r == Some((now_ms - s * 1000) as i128),
    {
        match self.seconds {
            None => None,
            Some(s) => Some(now_ms as i128 - (s as i128) * 1000),
        }
    }
}

/// Length of the window in seconds; none for all of history.
pub fn timeframe_seconds(timeframe: &Timeframe) -> (r: Option<u64>)
    ensures
        r == timeframe.seconds,
{
    timeframe.seconds
}

/// Start of the window that ends at `now_ms`: see `Timeframe::since_timestamp`.
pub fn since_timestamp(timeframe: &Timeframe, now_ms: i64) -> (r: Option<i128>)
    ensures
        timeframe.seconds is None ==> r is None,
        timeframe.seconds matches Some(s) ==> r == Some((now_ms - s * 1000) as i128),
{
    timeframe.since_timestamp(now_ms)
}

} // verus!
