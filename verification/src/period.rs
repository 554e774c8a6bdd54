//! Named reporting periods and the timestamp ranges they stand for.

use crate::datetime::{
    day_start_back, lemma_day_start_bounds, week_start_back, DateTimeExtensions, LocalDateTime,
};
use crate::tracker::{is_storable, storable};
use vstd::prelude::*;

verus! {

/// A reporting period offered to the reader of a report.
#[derive(Clone, Copy, Debug, PartialEq, Eq, Structural)]
pub enum StatsPeriod {
    Total,
    Today,
    Yesterday,
    Last3Days,
    ThisWeek,
    LastWeek,
    Custom,
}

/// The title of a period.
pub open spec fn title(period: StatsPeriod) -> Seq<char> {
    match period {
        StatsPeriod::Total => "Total"@,
        StatsPeriod::Today => "Today"@,
        StatsPeriod::Yesterday => "Yesterday"@,
        StatsPeriod::Last3Days => "Last 3 days"@,
        StatsPeriod::ThisWeek => "This week"@,
        StatsPeriod::LastWeek => "Last week"@,
        StatsPeriod::Custom => "Custom"@,
    }
}

/// The range of timestamps a period stands for at the instant
/// `(seconds, offset)`: none for the whole log and for a custom period,
/// whose range the reader picks.
pub open spec fn time_range(period: StatsPeriod, seconds: int, offset: int) -> Option<(int, int)> {
    match period {
        StatsPeriod::Total => None,
        StatsPeriod::Today => Some((day_start_back(seconds, offset, 0), seconds)),
        StatsPeriod::Yesterday => Some(
            (day_start_back(seconds, offset, 1), day_start_back(seconds, offset, 0)),
        ),
        StatsPeriod::Last3Days => Some((day_start_back(seconds, offset, 2), seconds)),
        StatsPeriod::ThisWeek => Some((week_start_back(seconds, offset, 0), seconds)),
        StatsPeriod::LastWeek => Some(
            (week_start_back(seconds, offset, 1), week_start_back(seconds, offset, 0)),
        ),
        StatsPeriod::Custom => None,
    }
}

/// Whether both ends of the period's range at the instant are timestamps of
/// 32 bits.
pub open spec fn range_fits(period: StatsPeriod, seconds: int, offset: int) -> bool {
    match time_range(period, seconds, offset) {
        None => true,
        Some((from, to)) => 0 <= from <= u32::MAX && 0 <= to <= u32::MAX,
    }
}

/// Seconds after the epoch from which every period's range fits: two weeks.
pub const EARLIEST_REPORT: i64 = 1_209_600;

/// Whether `now` is late enough after the epoch for the range of every
/// period to fit in timestamps of 32 bits.
pub fn can_report_at(now: LocalDateTime) -> (late_enough: bool)
    ensures
        late_enough == (storable(now) && now.timestamp >= EARLIEST_REPORT),
        late_enough ==> forall|period: StatsPeriod| #[trigger]
            range_fits(period, now.timestamp as int, now.offset as int),
{
    let late_enough = is_storable(now) && now.timestamp >= EARLIEST_REPORT;
    proof {
        if late_enough {
            let seconds = now.timestamp as int;
            let offset = now.offset as int;
            lemma_day_start_bounds(seconds, offset);
            lemma_day_start_bounds(seconds - 86_400, offset);
            lemma_day_start_bounds(seconds - 172_800, offset);
            lemma_day_start_bounds(
                seconds - 86_400 * crate::datetime::weekday_from_monday(seconds, offset),
                offset,
            );
            lemma_day_start_bounds(
                seconds - 604_800 - 86_400 * crate::datetime::weekday_from_monday(seconds, offset),
                offset,
            );
        }
    }
    late_enough
}

impl StatsPeriod {
    /// The title of the period.
    pub fn as_title(&self) -> (text: &'static str)
        ensures
            text@ == title(*self),
    {
        match self {
            StatsPeriod::Total => "Total",
            StatsPeriod::Today => "Today",
            StatsPeriod::Yesterday => "Yesterday",
            StatsPeriod::Last3Days => "Last 3 days",
            StatsPeriod::ThisWeek => "This week",
            StatsPeriod::LastWeek => "Last week",
            StatsPeriod::Custom => "Custom",
        }
    }

    /// The range of timestamps the period stands for at `now`.
    pub fn as_time_period(&self, now: LocalDateTime) -> (range: Option<(u32, u32)>)
        requires
            storable(now),
            range_fits(*self, now.timestamp as int, now.offset as int),
        ensures
            match time_range(*self, now.timestamp as int, now.offset as int) {
                None => range is None,
                Some((from, to)) => range == Some((from as u32, to as u32)),
            },
    {
        let now_ts = now.timestamp as u32;
        match self {
            StatsPeriod::Today => Some((now.start_of_day_ts(0), now_ts)),
            StatsPeriod::Yesterday => Some((now.start_of_day_ts(1), now.start_of_day_ts(0))),
            StatsPeriod::Last3Days => Some((now.start_of_day_ts(2), now_ts)),
            StatsPeriod::ThisWeek => Some((now.start_of_week_ts(0), now_ts)),
            StatsPeriod::LastWeek => Some((now.start_of_week_ts(1), now.start_of_week_ts(0))),
            _ => None,
        }
    }
}

} // verus!
