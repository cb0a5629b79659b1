//! Durations in whole seconds, and their breakdown into days, hours, minutes
//! and seconds for display.

use crate::text::{decimal, decimal_string};
use vstd::prelude::*;

verus! {

pub const SECONDS_PER_MINUTE: u64 = 60;

pub const SECONDS_PER_HOUR: u64 = 3600;

pub const SECONDS_PER_DAY: u64 = 86400;

pub const MINUTES_PER_HOUR: u64 = 60;

pub const HOURS_PER_DAY: u64 = 24;

/// The count of a unit as it is shown beside the next larger unit: the count
/// itself while it stays below `limit`, and its remainder once it reaches it.
pub open spec fn wrapped(count: nat, limit: nat) -> nat {
    if count >= limit {
        count % limit
    } else {
        count
    }
}

/// The seconds that have passed at `now` since `start`. A clock that went
/// backwards gives zero, never a negative duration.
pub open spec fn elapsed_between(start: i64, now: i64) -> u64 {
    if now >= start {
        (now - start) as u64
    } else {
        0
    }
}

/// A total of seconds after `elapsed` more have been added to it. The total
/// stops at `u64::MAX`.
pub open spec fn accumulated(total: u64, elapsed: u64) -> u64 {
    if total + elapsed <= u64::MAX {
        (total + elapsed) as u64
    } else {
        u64::MAX
    }
}

/// A duration broken down for display.
#[derive(Clone, Copy, Debug, PartialEq, Eq, Structural)]
pub struct PrettyDuration {
    pub days: u64,
    pub hours: u64,
    pub minutes: u64,
    pub seconds: u64,
}

impl PrettyDuration {
    /// The breakdown of `seconds`: all its whole days, then the hours,
    /// minutes and seconds, each wrapped at the size of the next larger unit.
    pub open spec fn decompose(seconds: u64) -> PrettyDuration {
        PrettyDuration {
            days: (seconds / SECONDS_PER_DAY) as u64,
            hours: wrapped((seconds / SECONDS_PER_HOUR) as nat, HOURS_PER_DAY as nat) as u64,
            minutes: wrapped((seconds / SECONDS_PER_MINUTE) as nat, MINUTES_PER_HOUR as nat) as u64,
            seconds: wrapped(seconds as nat, SECONDS_PER_MINUTE as nat) as u64,
        }
    }

    /// The seconds that the four fields stand for together.
    pub open spec fn total_seconds(self) -> int {
        self.days * SECONDS_PER_DAY + self.hours * SECONDS_PER_HOUR + self.minutes
            * SECONDS_PER_MINUTE + self.seconds
    }

    /// The breakdown in words.
    pub open spec fn text(self) -> Seq<char> {
        decimal(self.days as nat) + " days, "@ + decimal(self.hours as nat) + " hours, "@
            + decimal(self.minutes as nat) + " minutes, "@ + decimal(self.seconds as nat)
            + " seconds"@
    }

    /// Breaks a duration of `seconds` down into days, hours, minutes and
    /// seconds.
    pub fn new(seconds: u64) -> (r: Self)
        ensures
            r == Self::decompose(seconds),
    {
        let total_hours: u64 = seconds / SECONDS_PER_HOUR;
        let total_minutes: u64 = seconds / SECONDS_PER_MINUTE;
        let hours: u64 = if total_hours >= HOURS_PER_DAY {
            total_hours % HOURS_PER_DAY
        } else {
            total_hours
        };
        let minutes: u64 = if total_minutes >= MINUTES_PER_HOUR {
            total_minutes % MINUTES_PER_HOUR
        } else {
            total_minutes
        };
        let secs: u64 = if seconds >= SECONDS_PER_MINUTE {
            seconds % SECONDS_PER_MINUTE
        } else {
            seconds
        };
        PrettyDuration { days: seconds / SECONDS_PER_DAY, hours, minutes, seconds: secs }
    }

    /// Writes the breakdown in words, as in `1 days, 2 hours, 3 minutes, 4
    /// seconds`.
    pub fn to_text(&self) -> (r: String)
        ensures
            r@ == self.text(),
    {
        let mut line = decimal_string(self.days);
        line.append(" days, ");
        line.append(decimal_string(self.hours).as_str());
        line.append(" hours, ");
        line.append(decimal_string(self.minutes).as_str());
        line.append(" minutes, ");
        line.append(decimal_string(self.seconds).as_str());
        line.append(" seconds");
        line
    }
}

/// The seconds from `start` to `now`, zero where `now` lies before `start`.
pub fn elapsed(start: i64, now: i64) -> (r: u64)
    ensures
        r == elapsed_between(start, now),
{
    if now >= start {
        (now as i128 - start as i128) as u64
    } else {
        0
    }
}

/// Adds `elapsed` seconds to `total`, stopping at `u64::MAX`.
pub fn accumulate(total: u64, elapsed: u64) -> (r: u64)
    ensures
        r == accumulated(total, elapsed),
{
    match total.checked_add(elapsed) {
        Some(sum) => sum,
        None => u64::MAX,
    }
}

/// A breakdown loses nothing: its fields add up to the seconds it was made
/// from, with hours below 24 and minutes and seconds below 60.
pub proof fn lemma_decompose_adds_up(seconds: u64)
    ensures
        PrettyDuration::decompose(seconds).total_seconds() == seconds,
        PrettyDuration::decompose(seconds).hours < HOURS_PER_DAY,
        PrettyDuration::decompose(seconds).minutes < MINUTES_PER_HOUR,
        PrettyDuration::decompose(seconds).seconds < SECONDS_PER_MINUTE,
{
}

/// To wrap a count at a limit is to take its remainder, so a breakdown holds
/// the hours of the last day, the minutes of the last hour and the seconds
/// of the last minute.
pub proof fn lemma_decompose_remainders(seconds: u64)
    ensures
        PrettyDuration::decompose(seconds).hours as int == (seconds as int / 3600) % 24,
        PrettyDuration::decompose(seconds).minutes as int == (seconds as int / 60) % 60,
        PrettyDuration::decompose(seconds).seconds as int == seconds as int % 60,
{
}

} // verus!
