//! The series generator: starting from `since`, walk forward by `stride`
//! and yield every instant not beyond `until`. The walk is pure
//! arithmetic on an immutable start value, so it can be restarted at
//! will; a zero or wrong-signed stride makes it endless by design, which
//! the lazy cursor tolerates and the eager collector rules out up front.

use vstd::prelude::*;

use crate::error::Error;
use crate::time::{ts_in_range, Duration, Timestamp, DAY_MILLIS, MAX_DURATION_SECONDS,
    MILLIS_PER_SECOND};

verus! {

/// A lazy, restartable walk over the series: the cursor holds the next
/// instant to yield; `exhausted` marks a walk stopped at the edge of the
/// representable timeline.
pub struct Series {
    pub cursor: Timestamp,
    pub until: Timestamp,
    pub stride: Duration,
    pub exhausted: bool,
}

impl Series {
    /// Whether the walk still has an instant to yield.
    pub open spec fn live(&self) -> bool {
        !self.exhausted && self.cursor.millis <= self.until.millis
    }

    /// A fresh walk from `since` to `until` by `stride`.
    pub fn new(since: Timestamp, until: Timestamp, stride: Duration) -> (s: Series)
        ensures
            s.cursor == since,
            s.until == until,
            s.stride == stride,
            !s.exhausted,
    {
        Series { cursor: since, until, stride, exhausted: false }
    }

    /// Yield the cursor while it has not passed `until`, then advance it
    /// by one stride; a step that would leave the representable timeline
    /// exhausts the walk instead of advancing.
    pub fn next(&mut self) -> (r: Option<Timestamp>)
        ensures
            final (self).until == old(self).until,
            final (self).stride == old(self).stride,
            !old(self).live() ==> r is None && *final (self) == *old(self),
            old(self).live() ==> (r matches Some(x) && x == old(self).cursor),
            old(self).live() && ts_in_range(
                old(self).cursor.millis + old(self).stride.millis,
            ) ==> !final (self).exhausted && final (self).cursor.millis == old(self).cursor.millis
                + old(self).stride.millis,
            old(self).live() && !ts_in_range(
                old(self).cursor.millis + old(self).stride.millis,
            ) ==> final (self).exhausted && final (self).cursor == old(self).cursor,
    {
        if self.exhausted || self.cursor.millis > self.until.millis {
            return None;
        }
        let yielded = self.cursor;
        let step = self.stride.millis;
        if (step >= 0 && self.cursor.millis <= i64::MAX - step) || (step < 0
            && self.cursor.millis >= i64::MIN - step) {
            self.cursor = Timestamp { millis: self.cursor.millis + step };
        } else {
            self.exhausted = true;
        }
        Some(yielded)
    }
}

/// The whole series, collected eagerly: every instant `since + i * stride`
/// up to and never strictly beyond `until`. A positive stride keeps the
/// walk finite; for `since <= until` the count is exactly
/// `(until - since) / stride + 1`.
pub fn generate_series(since: Timestamp, until: Timestamp, stride: Duration) -> (r: Vec<Timestamp>)
    requires
        stride.millis > 0,
        until.millis <= i64::MAX - stride.millis,
    ensures
        since.millis > until.millis ==> r@.len() == 0,
        since.millis <= until.millis ==> r@.len() == (until.millis - since.millis) / (
        stride.millis as int) + 1,
        forall|i: int|
            0 <= i < r@.len() ==> (#[trigger] r@[i]).millis == since.millis + i * (
            stride.millis as int),
{
    let mut r: Vec<Timestamp> = Vec::new();
    let mut cursor: i64 = since.millis;
    while cursor <= until.millis
        invariant
            stride.millis > 0,
            until.millis <= i64::MAX - stride.millis,
            cursor as int == since.millis + (r@.len() as int) * (stride.millis as int),
            r@.len() > 0 ==> since.millis + (r@.len() - 1) * (stride.millis as int)
                <= until.millis,
            forall|i: int|
                0 <= i < r@.len() ==> (#[trigger] r@[i]).millis == since.millis + i * (
                stride.millis as int),
        decreases until.millis - cursor + stride.millis,
    {
        let ghost k = r@.len() as int;
        r.push(Timestamp { millis: cursor });
        proof {
            assert((k + 1) * (stride.millis as int) == k * (stride.millis as int) + (
            stride.millis as int)) by (nonlinear_arith);
        }
        cursor = cursor + stride.millis;
    }
    proof {
        let k = r@.len() as int;
        let d = stride.millis as int;
        if since.millis <= until.millis {
            assert(k > 0);
            let dd = until.millis - since.millis as int;
            assert(k * d == (k - 1) * d + d) by (nonlinear_arith);
            vstd::arithmetic::div_mod::lemma_fundamental_div_mod_converse(
                dd,
                d,
                k - 1,
                dd - (k - 1) * d,
            );
        }
    }
    r
}

/// Fill in the range defaults: `since` is required, a missing `until` is
/// the current instant, and a missing stride is one day; an explicit
/// stride is a count of whole seconds.
pub fn resolve_range(
    since: Option<Timestamp>,
    until: Option<Timestamp>,
    stride_secs: Option<i64>,
    now: Timestamp,
) -> (r: Result<(Timestamp, Timestamp, Duration), Error>)
    requires
        stride_secs matches Some(s) ==> -MAX_DURATION_SECONDS <= s <= MAX_DURATION_SECONDS,
    ensures
        since is None ==> (r matches Err(e) && e matches Error::MissingArgument(_)),
        since matches Some(s) ==> (r matches Ok(v) && v.0 == s && v.1 == (if until is Some {
            until->Some_0
        } else {
            now
        }) && v.2.millis == (if stride_secs is Some {
            stride_secs->Some_0 * (MILLIS_PER_SECOND as int)
        } else {
            DAY_MILLIS as int
        })),
{
    let s = match since {
        Some(s) => s,
        None => { return Err(Error::MissingArgument("--since".to_owned())) },
    };
    let u = match until {
        Some(u) => u,
        None => now,
    };
    let d = match stride_secs {
        Some(secs) => Duration::seconds(secs),
        None => Duration { millis: DAY_MILLIS },
    };
    Ok((s, u, d))
}

} // verus!
