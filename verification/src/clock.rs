//! The local clock: the current moment and the moment a day before it, with
//! their local dates read through chrono in the machine's time zone.

use vstd::prelude::*;
use chrono::{Datelike, TimeZone, Timelike};
use crate::dates::{CalendarDate, LocalMinute};

verus! {

/// A moment: seconds since the Unix epoch, and its local date and minute.
#[derive(Clone, Copy)]
pub struct LocalInstant {
    pub timestamp: i64,
    pub at: LocalMinute,
}

impl LocalInstant {
    pub open spec fn wf(self) -> bool {
        self.at.wf()
    }
}

/// Timestamps well inside chrono's range of dates (years -262143 to
/// 262142): within 8 * 10^12 seconds of the epoch, about 253 000 years.
pub open spec fn in_chrono_range(secs: int) -> bool {
    -8_000_000_000_000 <= secs <= 8_000_000_000_000
}

/// Calls std's `SystemTime::now()` and reads it as whole seconds since the
/// Unix epoch; `None` when the clock reads before the epoch (or beyond what
/// an `i64` holds).  What it returns depends on the clock: nothing is
/// claimed of it.
#[verifier::external_body]
fn clock_secs() -> (r: Option<i64>) {
    std::time::SystemTime::now().duration_since(std::time::UNIX_EPOCH).ok().and_then(
        |d| i64::try_from(d.as_secs()).ok(),
    )
}

/// Calls `chrono::Local.timestamp_opt(secs, 0)`, the local date and minute
/// of a Unix timestamp, and reads them together with the timestamp.
/// chrono's source builds the UTC moment with `DateTime::from_timestamp`,
/// which fails only for a date outside its year range, and then maps it to
/// a single local time, so the call succeeds for every timestamp within
/// `in_chrono_range`.  Which date comes back depends on the machine's time
/// zone; of it, only chrono's documented ranges are claimed.
#[verifier::external_body]
fn local_instant_at(secs: i64) -> (r: Option<LocalInstant>)
    ensures
        r matches Some(i) ==> i.wf() && i.timestamp == secs,
        in_chrono_range(secs as int) ==> r is Some,
{
    chrono::Local.timestamp_opt(secs, 0).single().map(|t| LocalInstant {
        timestamp: secs,
        at: LocalMinute {
            date: CalendarDate {
                year: t.year(),
                month: t.month(),
                day: t.day(),
                weekday: t.weekday().num_days_from_monday(),
            },
            hour: t.hour(),
            minute: t.minute(),
        },
    })
}

/// Seconds in one day.
pub const DAY_SECS: i64 = 86400;

/// The current moment, with its local date and minute; `None` when the
/// clock reads before 1970 or outside chrono's range.
pub fn local_now() -> (r: Option<LocalInstant>)
    ensures
        r matches Some(i) ==> i.wf(),
{
    match clock_secs() {
        Some(secs) => local_instant_at(secs),
        None => None,
    }
}

/// The moment one day (86400 seconds) before `ts`, where an `i64` holds it.
pub open spec fn day_before_moment(ts: i64) -> Option<i64> {
    if ts >= i64::MIN + DAY_SECS {
        Some((ts - DAY_SECS) as i64)
    } else {
        None
    }
}

/// Executable `day_before_moment`.
pub fn moment_day_before(ts: i64) -> (r: Option<i64>)
    ensures
        r == day_before_moment(ts),
{
    if ts >= i64::MIN + DAY_SECS {
        Some(ts - DAY_SECS)
    } else {
        None
    }
}

/// The moment one day before `t`, with its local date and minute; found
/// whenever that moment lies within chrono's range.
pub fn day_before(t: &LocalInstant) -> (r: Option<LocalInstant>)
    ensures
        r matches Some(d) ==> d.wf() && Some(d.timestamp) == day_before_moment(t.timestamp),
        in_chrono_range(t.timestamp - DAY_SECS) ==> r is Some,
{
    match moment_day_before(t.timestamp) {
        Some(secs) => local_instant_at(secs),
        None => None,
    }
}

/// The current local date and minute; `None` when the clock cannot be read.
pub fn current_minute() -> (r: Option<LocalMinute>)
    ensures
        r matches Some(m) ==> m.wf(),
{
    match local_now() {
        Some(i) => Some(i.at),
        None => None,
    }
}

/// The current moment and the moment one day before it; `None` when the
/// clock cannot be read.
pub fn today_and_yesterday() -> (r: Option<(LocalInstant, Option<LocalInstant>)>)
    ensures
        r matches Some(p) ==> {
            &&& p.0.wf()
            &&& p.1 matches Some(y) ==> y.wf() && Some(y.timestamp) == day_before_moment(
                p.0.timestamp,
            )
            &&& in_chrono_range(p.0.timestamp - DAY_SECS) ==> p.1 is Some
        },
{
    match local_now() {
        Some(now) => {
            let y = day_before(&now);
            Some((now, y))
        },
        None => None,
    }
}

} // verus!
