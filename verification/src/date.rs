//! The date resolver: an input string becomes an absolute UTC instant.
//! Resolution order, first match wins on the trimmed, lowercased input:
//! empty is a missing argument; a relative keyword is a fixed day offset
//! from the truncated current day; a leading sign reads the whole string
//! as a duration offset from now; anything else must be a full RFC 3339
//! date-time.

use vstd::prelude::*;

use crate::chars::{chars_vec, eq_chars, is_sign_char, lower_chars, lower_seq, spec_trim,
    trim_chars};
use crate::duration::{duration_in_range, parse_trimmed_duration_seconds, trimmed_duration_secs};
use crate::error::Error;
use crate::time::{floor_to, truncate, ts_in_range, Duration, Timestamp, DAY_MILLIS,
    MILLIS_PER_SECOND};

verus! {

/// The fixed day offset a relative keyword stands for, counted from the
/// start of the current UTC day; quarter, half and year are fixed-day
/// approximations.
pub open spec fn keyword_day_offset(t: Seq<char>) -> Option<int> {
    if t == "today"@ {
        Some(0)
    } else if t == "yesterday"@ {
        Some(-1)
    } else if t == "tomorrow"@ {
        Some(1)
    } else if t == "-quarter"@ || t == "-3m"@ || t == "-90d"@ {
        Some(-90)
    } else if t == "-half"@ || t == "-6m"@ || t == "-180d"@ {
        Some(-180)
    } else if t == "-year"@ || t == "-1y"@ || t == "-365d"@ {
        Some(-365)
    } else {
        None
    }
}

/// The milliseconds since the Unix epoch that an RFC 3339 date-time
/// string denotes, or nothing when the string is not one; a function of
/// the characters alone.
pub uninterp spec fn rfc3339_millis(s: Seq<char>) -> Option<int>;

/// Relies on chrono's `DateTime::parse_from_rfc3339` to read a full RFC
/// 3339 date-time (date, time and offset all present), and on its
/// `timestamp_millis` to place the parsed instant on the UTC millisecond
/// timeline; the outcome depends on the input characters alone.
#[verifier::external_body]
fn parse_rfc3339(s: &str) -> (r: Option<i64>)
    ensures
        r matches Some(m) ==> rfc3339_millis(s@) == Some(m as int),
        r is None ==> rfc3339_millis(s@) is None,
{
    match chrono::DateTime::parse_from_rfc3339(s) {
        Ok(d) => Some(d.with_timezone(&chrono::Utc).timestamp_millis()),
        Err(_) => None,
    }
}

/// Relies on `String::from_iter` over `char` to spell exactly the pushed
/// characters back as a string.
#[verifier::external_body]
fn string_of_chars(v: &Vec<char>) -> (s: String)
    ensures
        s@ == v@,
{
    v.iter().collect()
}

/// What `parse_date` resolves a prepared (trimmed, lowercased) input `t`
/// and current instant `now` to.
pub open spec fn date_resolution(t: Seq<char>, now: Timestamp, r: Result<
    Timestamp,
    Error,
>) -> bool {
    let base = floor_to(now.millis as int, DAY_MILLIS as int);
    if t.len() == 0 {
        r matches Err(e) && e matches Error::MissingArgument(_)
    } else {
        match keyword_day_offset(t) {
            Some(days) => {
                if !ts_in_range(base) {
                    r matches Err(e) && e == Error::DurationRoundingError
                } else {
                    let ms = base + days * (DAY_MILLIS as int);
                    if ts_in_range(ms) {
                        r matches Ok(x) && x.millis == ms
                    } else {
                        r matches Err(e) && e == Error::ParseDateError
                    }
                }
            },
            None => {
                if is_sign_char(t[0]) {
                    match trimmed_duration_secs(t) {
                        Some(v) => {
                            if duration_in_range(v) {
                                let ms = now.millis + v * (MILLIS_PER_SECOND as int);
                                if ts_in_range(ms) {
                                    r matches Ok(x) && x.millis == ms
                                } else {
                                    r matches Err(e) && e == Error::ParseDateError
                                }
                            } else {
                                r matches Err(e) && e == Error::ParseDurationError
                            }
                        },
                        None => r matches Err(e) && e == Error::ParseDurationError,
                    }
                } else {
                    match rfc3339_millis(t) {
                        Some(ms) => r matches Ok(x) && x.millis == ms,
                        None => r matches Err(e) && e == Error::ParseDateError,
                    }
                }
            },
        }
    }
}

/// Resolve a date string against the current instant `now`: a relative
/// keyword counts whole days from `now` truncated to the start of its UTC
/// day, a signed expression is a duration offset from `now` itself, and
/// anything else must be a full RFC 3339 date-time.
pub fn parse_date(input: &str, now: Timestamp) -> (r: Result<Timestamp, Error>)
    ensures
        date_resolution(lower_seq(spec_trim(input@)), now, r),
{
    let raw = chars_vec(input);
    let trimmed = trim_chars(&raw);
    let t = lower_chars(&trimmed);
    let ghost tv = lower_seq(spec_trim(input@));
    proof {
        assert(t@ == tv);
    }
    if t.len() == 0 {
        return Err(Error::MissingArgument("Date is empty".to_owned()));
    }
    let days: i64 = if eq_chars(&t, "today") {
        0
    } else if eq_chars(&t, "yesterday") {
        -1
    } else if eq_chars(&t, "tomorrow") {
        1
    } else if eq_chars(&t, "-quarter") || eq_chars(&t, "-3m") || eq_chars(&t, "-90d") {
        -90
    } else if eq_chars(&t, "-half") || eq_chars(&t, "-6m") || eq_chars(&t, "-180d") {
        -180
    } else if eq_chars(&t, "-year") || eq_chars(&t, "-1y") || eq_chars(&t, "-365d") {
        -365
    } else {
        i64::MIN
    };
    if days != i64::MIN {
        let base = match truncate(now, Duration { millis: DAY_MILLIS }) {
            Ok(b) => b,
            Err(e) => { return Err(e) },
        };
        let offset = days * DAY_MILLIS;
        if (offset >= 0 && base.millis <= i64::MAX - offset) || (offset < 0 && base.millis
            >= i64::MIN - offset) {
            return Ok(Timestamp { millis: base.millis + offset });
        } else {
            return Err(Error::ParseDateError);
        }
    }
    let c0 = t[0];
    if c0 == '+' || c0 == '-' {
        let secs = match parse_trimmed_duration_seconds(&t) {
            Ok(v) => v,
            Err(e) => { return Err(e) },
        };
        let offset = secs * 1000;
        if (offset >= 0 && now.millis <= i64::MAX - offset) || (offset < 0 && now.millis
            >= i64::MIN - offset) {
            return Ok(Timestamp { millis: now.millis + offset });
        } else {
            return Err(Error::ParseDateError);
        }
    }
    let s = string_of_chars(&t);
    match parse_rfc3339(s.as_str()) {
        Some(ms) => Ok(Timestamp { millis: ms }),
        None => Err(Error::ParseDateError),
    }
}

} // verus!
