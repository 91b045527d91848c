use chrono::{DateTime, Utc};
use vstd::prelude::*;

verus! {

/// A point in time in UTC: whole seconds since the Unix epoch and the
/// nanoseconds past that second.
#[derive(Clone, Copy, Debug, PartialEq, Eq, Structural)]
pub struct Timestamp {
    pub seconds: i64,
    pub nanos: u32,
}

pub const SECONDS_PER_DAY: i64 = 86400;

pub const SECONDS_PER_HOUR: i64 = 3600;

/// The hour of the day (0 to 23) in UTC at which `t` falls.
pub open spec fn hour_of(t: Timestamp) -> u32 {
    ((t.seconds as int % (SECONDS_PER_DAY as int)) / (SECONDS_PER_HOUR as int)) as u32
}

impl Timestamp {
    /// The hour of the day in UTC.
    pub fn hour(&self) -> (h: u32)
        ensures
            h == hour_of(*self),
            h < 24,
    {
        let s = self.seconds;
        let in_day: i64 = if s >= 0 {
            s % SECONDS_PER_DAY
        } else {
            let m: i64 = -(s + 1);
            let r: i64 = m % SECONDS_PER_DAY;
            proof {
                assert((s as int) == -(m as int) - 1);
                assert(((m as int) / 86400) * 86400 + (r as int) == m as int) by (nonlinear_arith)
                    requires
                        r as int == (m as int) % 86400,
                        m >= 0,
                ;
                let q = -((m as int) / 86400) - 1;
                assert(q * 86400 + (86399 - r as int) == s as int);
                vstd::arithmetic::div_mod::lemma_fundamental_div_mod_converse(
                    s as int,
                    86400,
                    q,
                    86399 - r as int,
                );
            }
            SECONDS_PER_DAY - 1 - r
        };
        (in_day / SECONDS_PER_HOUR) as u32
    }
}

/// What chrono makes of `text` read under the strftime `format`: the UTC
/// instant as whole seconds since the epoch and nanoseconds past that second,
/// or nothing where the text does not match.
pub uninterp spec fn instant_of(text: Seq<char>, format: Seq<char>) -> Option<(i64, u32)>;

/// Relies on chrono's `DateTime::parse_from_str`, whose result depends on the
/// text and the format alone; `timestamp` and `timestamp_subsec_nanos` of the
/// parsed value give its UTC instant.
#[verifier::external_body]
pub(crate) fn parse_instant(text: &str, format: &str) -> (r: Option<Timestamp>)
    ensures
        match instant_of(text@, format@) {
            Some(p) => r == Some(Timestamp { seconds: p.0, nanos: p.1 }),
            None => r is None,
        },
{
    match DateTime::parse_from_str(text, format) {
        Ok(dt) => Some(Timestamp { seconds: dt.timestamp(), nanos: dt.timestamp_subsec_nanos() }),
        Err(_) => None,
    }
}

/// Relies on chrono's `Utc::now` for the current wall-clock time; nothing is
/// known of the value read.
#[verifier::external_body]
pub(crate) fn current_time() -> (r: Timestamp) {
    let now = Utc::now();
    Timestamp { seconds: now.timestamp(), nanos: now.timestamp_subsec_nanos() }
}

} // verus!
