//! Calendar days within the reach of 32-bit timestamps.
//!
//! A day is counted from 1970-01-01 in UTC. Steps by days and the conversions
//! to and from timestamps are stated exactly; steps by months are left to
//! `chrono` and named, not modelled.

use vstd::prelude::*;

verus! {

/// The day that holds the greatest 32-bit timestamp: 2106-02-07.
pub const LAST_DAY: i32 = 49_710;

/// The day `months` months after day `days`, as `chrono` finds it: the same
/// day of the month, or the last day of a shorter month; `None` where it
/// has no such date.
pub uninterp spec fn months_later(days: i32, months: u32) -> Option<i32>;

/// The day `months` months before day `days`, as `chrono` finds it: the same
/// day of the month, or the last day of a shorter month; `None` where it
/// has no such date.
pub uninterp spec fn months_earlier(days: i32, months: u32) -> Option<i32>;

/// `NaiveDate::checked_add_days` on the date `days` days after 1970-01-01:
/// the date `count` days later.
#[verifier::external_body]
pub(crate) fn days_after(days: i32, count: u64) -> (r: Option<i32>)
    requires
        0 <= days <= LAST_DAY,
        count <= 49_710,
    ensures
        r == Some((days + count) as i32),
{
    let date = chrono::NaiveDate::from_epoch_days(days)?;
    date.checked_add_days(chrono::Days::new(count)).map(|d| d.to_epoch_days())
}

/// `NaiveDate::checked_sub_days` on the date `days` days after 1970-01-01:
/// the date `count` days earlier.
#[verifier::external_body]
pub(crate) fn days_before(days: i32, count: u64) -> (r: Option<i32>)
    requires
        0 <= days <= LAST_DAY,
        count <= 49_710,
    ensures
        r == Some((days - count) as i32),
{
    let date = chrono::NaiveDate::from_epoch_days(days)?;
    date.checked_sub_days(chrono::Days::new(count)).map(|d| d.to_epoch_days())
}

/// `NaiveDate::checked_add_months` on the date `days` days after 1970-01-01.
#[verifier::external_body]
pub(crate) fn months_after(days: i32, months: u32) -> (r: Option<i32>)
    requires
        0 <= days <= LAST_DAY,
    ensures
        r == months_later(days, months),
{
    let date = chrono::NaiveDate::from_epoch_days(days)?;
    date.checked_add_months(chrono::Months::new(months)).map(|d| d.to_epoch_days())
}

/// `NaiveDate::checked_sub_months` on the date `days` days after 1970-01-01.
#[verifier::external_body]
pub(crate) fn months_before(days: i32, months: u32) -> (r: Option<i32>)
    requires
        0 <= days <= LAST_DAY,
    ensures
        r == months_earlier(days, months),
{
    let date = chrono::NaiveDate::from_epoch_days(days)?;
    date.checked_sub_months(chrono::Months::new(months)).map(|d| d.to_epoch_days())
}

/// `DateTime::from_timestamp` followed by `date_naive`: the UTC date of a
/// timestamp, as days since 1970-01-01.
#[verifier::external_body]
fn day_of_timestamp(seconds: u32) -> (days: i32)
    ensures
        days == seconds / 86_400,
{
    chrono::DateTime::from_timestamp(seconds as i64, 0).unwrap().date_naive().to_epoch_days()
}

/// `NaiveDate::and_hms_opt` followed by `and_utc` and `timestamp`: the
/// timestamp of a time of day in UTC on the date `days` days after 1970-01-01.
#[verifier::external_body]
fn timestamp_on_day(days: i32, hour: u32, minute: u32, second: u32) -> (seconds: i64)
    requires
        0 <= days <= LAST_DAY,
        hour < 24,
        minute < 60,
        second < 60,
    ensures
        seconds == days * 86_400 + hour * 3600 + minute * 60 + second,
{
    let date = chrono::NaiveDate::from_epoch_days(days).unwrap();
    date.and_hms_opt(hour, minute, second).unwrap().and_utc().timestamp()
}

/// A calendar day, counted in days since 1970-01-01.
#[derive(Clone, Copy, Debug, PartialEq, Eq, Structural)]
pub struct Date {
    pub days: i32,
}

impl Date {
    /// Whether the day lies within the reach of 32-bit timestamps.
    pub open spec fn valid(&self) -> bool {
        0 <= self.days <= LAST_DAY
    }

    /// The day `days` days after 1970-01-01, if 32-bit timestamps reach it.
    pub fn from_days(days: i32) -> (date: Option<Date>)
        ensures
            date == if 0 <= days <= LAST_DAY {
                Some(Date { days })
            } else {
                None
            },
    {
        if 0 <= days && days <= LAST_DAY {
            Some(Date { days })
        } else {
            None
        }
    }

    /// The day nearest to `days` that 32-bit timestamps reach.
    pub fn nearest(days: i32) -> (date: Date)
        ensures
            date.valid(),
            date.days == if days < 0 {
                0
            } else if days > LAST_DAY {
                LAST_DAY
            } else {
                days
            },
    {
        if days < 0 {
            Date { days: 0 }
        } else if days > LAST_DAY {
            Date { days: LAST_DAY }
        } else {
            Date { days }
        }
    }

    /// The UTC day of a timestamp.
    pub fn from_timestamp(seconds: u32) -> (date: Date)
        ensures
            date.valid(),
            date.days == seconds / 86_400,
    {
        Date { days: day_of_timestamp(seconds) }
    }

    /// The timestamp of 00:00:00 UTC on the day.
    pub fn start_timestamp(&self) -> (seconds: u32)
        requires
            self.valid(),
        ensures
            seconds == self.days * 86_400,
    {
        timestamp_on_day(self.days, 0, 0, 0) as u32
    }

    /// The timestamp of 23:59:59 UTC on the day; on the last day, which
    /// 32-bit timestamps do not reach the end of, the greatest timestamp.
    pub fn end_timestamp(&self) -> (seconds: u32)
        requires
            self.valid(),
        ensures
            seconds == if self.days * 86_400 + 86_399 <= u32::MAX {
                self.days * 86_400 + 86_399
            } else {
                u32::MAX as int
            },
    {
        let end = timestamp_on_day(self.days, 23, 59, 59);
        if end <= u32::MAX as i64 {
            end as u32
        } else {
            u32::MAX
        }
    }
}

} // verus!
