//! Alignment of background tasks to the quarter hours of the day.

use vstd::prelude::*;
use std::time::{Duration, SystemTime, UNIX_EPOCH};

verus! {

/// Earliest timestamp, in seconds since the UNIX epoch, that a calendar
/// date and time can be made of: the first second of the year -262143.
pub const MIN_TIMESTAMP: i64 = -8334601315200;

/// Latest timestamp, in seconds since the UNIX epoch, that a calendar date
/// and time can be made of: the last second of the year 262142.
pub const MAX_TIMESTAMP: i64 = 8210266876799;

/// Seconds since midnight of the day that `ts` falls on.
pub open spec fn second_of_day(ts: int) -> int {
    ts % 86400
}

/// Hour of the day that `ts` falls in.
pub open spec fn hour_of(ts: int) -> int {
    second_of_day(ts) / 3600
}

/// Minute of the hour that `ts` falls in.
pub open spec fn minute_of(ts: int) -> int {
    (second_of_day(ts) % 3600) / 60
}

/// The next quarter hour after the minute of `ts`, as minute of the hour;
/// zero stands for the full hour.
pub open spec fn next_quarter(ts: int) -> int {
    let m = minute_of(ts) + 1;
    if m <= 15 {
        15
    } else if m <= 30 {
        30
    } else if m <= 45 {
        45
    } else {
        0
    }
}

/// The time of the next market run after `ts`: the next quarter hour after
/// its minute. A full hour counts into the next hour, and after 23:45 the
/// run is at midnight of the next day.
pub open spec fn next_market(ts: int) -> int {
    let minutes = next_quarter(ts);
    let hours = if minutes == 0 { hour_of(ts) + 1 } else { hour_of(ts) };
    ts - second_of_day(ts) + hours * 3600 + minutes * 60
}

/// Seconds from `ts` to the next market run.
pub open spec fn seconds_to_next_market(ts: int) -> int {
    next_market(ts) - ts
}

/// The next market run lies on a quarter hour of the day, at most a
/// quarter of an hour after `ts` and strictly after it, across the end of
/// the day too.
pub proof fn next_market_is_next_quarter(ts: int)
    ensures
        ts < next_market(ts) <= ts + 900,
        (next_market(ts) - (ts - second_of_day(ts))) % 900 == 0,
{
    let s = second_of_day(ts);
    let h = hour_of(ts);
    let m = minute_of(ts);
    assert(0 <= s < 86400);
    assert(s == h * 3600 + (s % 3600)) by {
        vstd::arithmetic::div_mod::lemma_fundamental_div_mod(s, 3600);
    }
    assert(s % 3600 == m * 60 + (s % 3600) % 60) by {
        vstd::arithmetic::div_mod::lemma_fundamental_div_mod(s % 3600, 60);
    }
    assert(0 <= (s % 3600) % 60 < 60);
    assert(0 <= m < 60);
    assert(0 <= h < 24);
}

#[verifier::external_type_specification]
#[verifier::external_body]
pub struct ExSystemTime(SystemTime);

/// The current time of the system clock.
///
/// Calls `std::time::SystemTime::now`; nothing is claimed of the result,
/// which depends on the clock.
#[verifier::external_body]
fn system_now() -> SystemTime {
    SystemTime::now()
}

/// Time from the UNIX epoch to `t`, or none where `t` lies before it.
///
/// Calls `SystemTime::duration_since` with `UNIX_EPOCH`, which fails on a
/// time before the epoch; nothing is claimed of the duration.
#[verifier::external_body]
fn since_epoch(t: &SystemTime) -> Option<Duration> {
    t.duration_since(UNIX_EPOCH).ok()
}

/// Whole seconds of a duration.
///
/// Calls `Duration::as_secs`; nothing is claimed of the value beyond its
/// type.
#[verifier::external_body]
fn whole_secs(d: &Duration) -> u64 {
    d.as_secs()
}

/// The duration of `secs` whole seconds.
pub uninterp spec fn duration_of_secs(secs: u64) -> Duration;

/// A duration of the given number of whole seconds.
///
/// Calls `std::time::Duration::from_secs`, whose result depends on the
/// number of seconds alone; the contract names it.
#[verifier::external_body]
fn duration_from_secs(secs: u64) -> (r: Duration)
    ensures
        r == duration_of_secs(secs),
{
    Duration::from_secs(secs)
}

/// Helper for handling time so that the tasks run at a specific time.
pub struct Time {
    /// Time this struct was created
    current_ts: i64,
}

impl Time {
    #[verifier::type_invariant]
    spec fn in_calendar(self) -> bool {
        MIN_TIMESTAMP <= self.current_ts <= MAX_TIMESTAMP
    }

    /// The timestamp that this helper was made at.
    pub closed spec fn timestamp(self) -> int {
        self.current_ts as int
    }

    /// A helper for the given timestamp, in seconds since the UNIX epoch.
    pub fn new(current_ts: i64) -> (r: Self)
        requires
            MIN_TIMESTAMP <= current_ts <= MAX_TIMESTAMP,
        ensures
            r.timestamp() == current_ts,
    {
        Time { current_ts }
    }

    /// Timestamp of the next market run, aligned to the next quarter hour.
    pub fn datetime_next_market(&self) -> (r: i64)
        ensures
            r == next_market(self.timestamp()),
    {
        proof {
            use_type_invariant(self);
        }
        let ts = self.current_ts;
        let sod: i64 = if ts >= 0 {
            ts % 86400
        } else {
            let m = (-ts) % 86400;
            if m == 0 { 0 } else { 86400 - m }
        };
        proof {
            let t = ts as int;
            if t < 0 {
                let m = (-t) % 86400;
                vstd::arithmetic::div_mod::lemma_fundamental_div_mod(-t, 86400);
                if m == 0 {
                    vstd::arithmetic::div_mod::lemma_fundamental_div_mod_converse(t, 86400, -((-t) / 86400), 0);
                } else {
                    vstd::arithmetic::div_mod::lemma_fundamental_div_mod_converse(t, 86400, -((-t) / 86400) - 1, 86400 - m);
                }
            }
        }
        assert(sod == second_of_day(ts as int));
        let hour = sod / 3600;
        let minute = (sod % 3600) / 60;
        let m1 = minute + 1;
        let minutes: i64 = if m1 <= 15 {
            15
        } else if m1 <= 30 {
            30
        } else if m1 <= 45 {
            45
        } else {
            0
        };
        let hours = if minutes == 0 { hour + 1 } else { hour };
        ts - sod + hours * 3600 + minutes * 60
    }

    /// Seconds until the next market run: between one and 900.
    pub fn seconds_next_market(&self) -> (r: u64)
        ensures
            r == seconds_to_next_market(self.timestamp()),
            1 <= r <= 900,
    {
        proof {
            use_type_invariant(self);
            next_market_is_next_quarter(self.timestamp());
        }
        let next = self.datetime_next_market();
        let diff = next - self.current_ts;
        diff as u64
    }

    /// Creates a new duration for the next character task run: the
    /// seconds until the next market run.
    pub fn duration_next_market(&self) -> (r: Duration)
        ensures
            r == duration_of_secs(seconds_to_next_market(self.timestamp()) as u64),
    {
        duration_from_secs(self.seconds_next_market())
    }
}

impl Time {
    /// The timestamp that a reading of the system clock, in whole seconds
    /// since the UNIX epoch, stands for: a clock before the epoch (no
    /// reading) counts as the epoch, and one beyond the calendar as its
    /// last second.
    pub open spec fn clamped_secs(secs: Option<u64>) -> int {
        match secs {
            Some(s) => if s <= MAX_TIMESTAMP { s as int } else { MAX_TIMESTAMP as int },
            None => 0,
        }
    }

    /// A helper for a reading of the system clock, in whole seconds since
    /// the UNIX epoch, or none for a clock before the epoch.
    pub fn from_epoch_secs(secs: Option<u64>) -> (r: Self)
        ensures
            r.timestamp() == Self::clamped_secs(secs),
    {
        let current_ts: i64 = match secs {
            Some(s) => {
                if s <= MAX_TIMESTAMP as u64 {
                    s as i64
                } else {
                    MAX_TIMESTAMP
                }
            },
            None => 0,
        };
        Time { current_ts }
    }
}

impl Default for Time {
    /// A helper for the current time of the system clock, in whole seconds.
    fn default() -> (r: Self)
        ensures
            exists|secs: Option<u64>| r.timestamp() == #[trigger] Self::clamped_secs(secs),
    {
        let secs = match since_epoch(&system_now()) {
            Some(d) => Some(whole_secs(&d)),
            None => None,
        };
        let r = Self::from_epoch_secs(secs);
        assert(r.timestamp() == Self::clamped_secs(secs));
        r
    }
}

} // verus!
