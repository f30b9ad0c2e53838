use vstd::prelude::*;

use crate::error::Error;

verus! {

/// Milliseconds of one second, of one hour, and of one day.
pub const MILLIS_PER_SECOND: i64 = 1000;
pub const SECONDS_PER_HOUR: i64 = 3600;
pub const DAY_MILLIS: i64 = 86_400_000;

/// The largest whole-second magnitude a `Duration` can carry in
/// milliseconds without leaving `i64`.
pub const MAX_DURATION_SECONDS: i64 = 9_223_372_036_854_775;

/// An absolute UTC instant: milliseconds since the Unix epoch.
#[derive(Debug, Clone, Copy, PartialEq, Eq, Structural)]
pub struct Timestamp {
    pub millis: i64,
}

/// A signed span of time, in milliseconds.
#[derive(Debug, Clone, Copy, PartialEq, Eq, Structural)]
pub struct Duration {
    pub millis: i64,
}

impl Duration {
    /// The span of `secs` whole seconds.
    pub fn seconds(secs: i64) -> (d: Duration)
        requires
            -MAX_DURATION_SECONDS <= secs <= MAX_DURATION_SECONDS,
        ensures
            d.millis == secs * MILLIS_PER_SECOND,
    {
        Duration { millis: secs * 1000 }
    }

    /// The span of `h` whole hours.
    pub fn hours(h: i64) -> (d: Duration)
        requires
            -2_562_047_788_015 <= h <= 2_562_047_788_015,
        ensures
            d.millis == h * SECONDS_PER_HOUR * MILLIS_PER_SECOND,
    {
        Duration { millis: h * 3600 * 1000 }
    }

    /// Whole seconds of the span, truncated toward zero.
    pub fn num_seconds(&self) -> (s: i64)
        ensures
            self.millis >= 0 ==> s == self.millis / MILLIS_PER_SECOND,
            self.millis < 0 ==> s == -((-(self.millis as int)) / (MILLIS_PER_SECOND as int)),
    {
        self.millis / 1000
    }
}

/// A millisecond count that the `Timestamp` representation can carry.
pub open spec fn ts_in_range(v: int) -> bool {
    i64::MIN <= v <= i64::MAX
}

/// Milliseconds `m` floored to the nearest lower multiple of `d`,
/// anchored at the Unix epoch (`d > 0`; `%` here is the mathematical,
/// always-non-negative remainder).
pub open spec fn floor_to(m: int, d: int) -> int {
    m - m % d
}

/// The mathematical remainder of `m` by `d`, computed from the
/// non-negative cases of machine remainder alone.
fn euclid_rem(m: i64, d: i64) -> (e: i64)
    requires
        d > 0,
    ensures
        e as int == (m as int) % (d as int),
        0 <= e < d,
{
    if m >= 0 {
        m % d
    } else {
        let n = -(m + 1);
        let r = n % d;
        proof {
            vstd::arithmetic::div_mod::lemma_fundamental_div_mod(n as int, d as int);
            vstd::arithmetic::div_mod::lemma_mod_bound(n as int, d as int);
            assert((-((n as int) / (d as int)) - 1) * (d as int) == -(((n as int) / (d as int)) * (
            d as int)) - (d as int)) by (nonlinear_arith);
            vstd::arithmetic::div_mod::lemma_fundamental_div_mod_converse(
                m as int,
                d as int,
                -((n as int) / (d as int)) - 1,
                d as int - 1 - (r as int),
            );
        }
        d - 1 - r
    }
}

/// `t` rounded down to the start of the nearest `unit` boundary, anchored
/// at the Unix epoch. A degenerate (non-positive) unit is a rounding
/// error, as is a result that would leave the representable range.
pub fn truncate(t: Timestamp, unit: Duration) -> (r: Result<Timestamp, Error>)
    ensures
        unit.millis <= 0 ==> (r matches Err(e) && e == Error::DurationRoundingError),
        unit.millis > 0 ==> ({
            let f = floor_to(t.millis as int, unit.millis as int);
            if f >= i64::MIN {
                r matches Ok(x) && x.millis == f
            } else {
                r matches Err(e) && e == Error::DurationRoundingError
            }
        }),
{
    if unit.millis <= 0 {
        return Err(Error::DurationRoundingError);
    }
    let e = euclid_rem(t.millis, unit.millis);
    if t.millis >= i64::MIN + e {
        Ok(Timestamp { millis: t.millis - e })
    } else {
        Err(Error::DurationRoundingError)
    }
}

/// Both ends of a range floored to the same unit boundary, as an optional
/// truncation step before series generation.
pub fn truncate_range(since: Timestamp, until: Timestamp, unit: Duration) -> (r: Result<
    (Timestamp, Timestamp),
    Error,
>)
    ensures
        r matches Ok(v) ==> unit.millis > 0 && v.0.millis == floor_to(
            since.millis as int,
            unit.millis as int,
        ) && v.1.millis == floor_to(until.millis as int, unit.millis as int),
        r matches Err(e) ==> e == Error::DurationRoundingError && (unit.millis <= 0 || floor_to(
            since.millis as int,
            unit.millis as int,
        ) < i64::MIN || floor_to(until.millis as int, unit.millis as int) < i64::MIN),
{
    let s = match truncate(since, unit) {
        Ok(x) => x,
        Err(e) => { return Err(e) },
    };
    let u = match truncate(until, unit) {
        Ok(x) => x,
        Err(e) => { return Err(e) },
    };
    Ok((s, u))
}

/// Truncation is idempotent: flooring an already-floored instant to the
/// same unit leaves it unchanged.
pub proof fn lemma_truncate_idempotent(m: int, d: int)
    requires
        d > 0,
    ensures
        floor_to(floor_to(m, d), d) == floor_to(m, d),
{
    vstd::arithmetic::div_mod::lemma_fundamental_div_mod(m, d);
    vstd::arithmetic::div_mod::lemma_mod_bound(m, d);
    vstd::arithmetic::div_mod::lemma_mod_multiples_basic(m / d, d);
    assert(m - m % d == (m / d) * d) by {
        assert(d * (m / d) == (m / d) * d) by (nonlinear_arith);
    }
}

} // verus!
