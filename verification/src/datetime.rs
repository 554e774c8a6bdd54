//! Calendar arithmetic on local instants: day and week boundaries.
//!
//! A local instant is a count of seconds since the Unix epoch together with
//! the offset of local time from UTC. All results are exact integer
//! arithmetic on those two numbers; the calls into `chrono` that produce them
//! are stated over the same numbers.

use vstd::prelude::*;

verus! {

/// Seconds in a civil day.
pub const SECONDS_PER_DAY: i64 = 86_400;

/// Largest magnitude of a timestamp this module computes with; well inside the
/// range of instants that `chrono` represents.
pub const MAX_SECONDS: i64 = 8_000_000_000_000;

/// Seconds elapsed since local midnight at instant `seconds` under `offset`.
pub open spec fn second_of_day(seconds: int, offset: int) -> int {
    (seconds + offset) % 86_400
}

/// The instant of local midnight that begins the day containing `seconds`.
pub open spec fn day_start(seconds: int, offset: int) -> int {
    seconds - second_of_day(seconds, offset)
}

/// Days from the Monday of the local week to the local day of `seconds`
/// (Monday is 0, Sunday is 6). The epoch fell on a Thursday.
pub open spec fn weekday_from_monday(seconds: int, offset: int) -> int {
    ((seconds + offset) / 86_400 + 3) % 7
}

/// Whole days in `delta` seconds, rounded toward zero.
pub open spec fn whole_days(delta: int) -> int {
    if delta >= 0 {
        delta / 86_400
    } else {
        -((-delta) / 86_400)
    }
}

/// Whole days between the local midnights that begin the days of two instants;
/// negative when the second day precedes the first.
pub open spec fn days_between_day_starts(
    from_seconds: int,
    from_offset: int,
    to_seconds: int,
    to_offset: int,
) -> int {
    whole_days(day_start(to_seconds, to_offset) - day_start(from_seconds, from_offset))
}

/// Local midnight of the day `days` days before the day of `seconds`.
pub open spec fn day_start_back(seconds: int, offset: int, days: int) -> int {
    day_start(seconds - 86_400 * days, offset)
}

/// Local midnight of the Monday `weeks` weeks before the week of `seconds`.
/// The step back to Monday is counted from the weekday of `seconds` itself.
pub open spec fn week_start_back(seconds: int, offset: int, weeks: int) -> int {
    day_start_back(seconds - 604_800 * weeks, offset, weekday_from_monday(seconds, offset))
}

/// Whether `(seconds, offset)` is an instant this module computes with.
pub open spec fn instant_in_range(seconds: int, offset: int) -> bool {
    &&& -MAX_SECONDS <= seconds <= MAX_SECONDS
    &&& -SECONDS_PER_DAY < offset < SECONDS_PER_DAY
}

/// Whether `(seconds, offset)` lies within a day of the instants this module
/// computes with: the range on which the calls into `chrono` are made.
pub open spec fn instant_near_range(seconds: int, offset: int) -> bool {
    &&& -MAX_SECONDS - SECONDS_PER_DAY <= seconds <= MAX_SECONDS + SECONDS_PER_DAY
    &&& -SECONDS_PER_DAY < offset < SECONDS_PER_DAY
}

/// `chrono::Timelike::with_hour` on a `DateTime<FixedOffset>`: the same local
/// date, minute and second with the hour replaced; `None` for an hour above 23.
#[verifier::external_body]
fn with_hour(seconds: i64, offset: i32, hour: u32) -> (r: Option<i64>)
    requires
        instant_near_range(seconds as int, offset as int),
    ensures
        r == if hour < 24 {
            Some((seconds + (hour - second_of_day(seconds as int, offset as int) / 3600) * 3600) as i64)
        } else {
            None
        },
{
    let zone = chrono::FixedOffset::east_opt(offset)?;
    let instant = chrono::DateTime::from_timestamp(seconds, 0)?.with_timezone(&zone);
    chrono::Timelike::with_hour(&instant, hour).map(|d| d.timestamp())
}

/// `chrono::Timelike::with_minute` on a `DateTime<FixedOffset>`: the same local
/// date, hour and second with the minute replaced; `None` for a minute above 59.
#[verifier::external_body]
fn with_minute(seconds: i64, offset: i32, minute: u32) -> (r: Option<i64>)
    requires
        instant_near_range(seconds as int, offset as int),
    ensures
        r == if minute < 60 {
            Some(
                (seconds + (minute - (second_of_day(seconds as int, offset as int) / 60) % 60)
                    * 60) as i64,
            )
        } else {
            None
        },
{
    let zone = chrono::FixedOffset::east_opt(offset)?;
    let instant = chrono::DateTime::from_timestamp(seconds, 0)?.with_timezone(&zone);
    chrono::Timelike::with_minute(&instant, minute).map(|d| d.timestamp())
}

/// `chrono::Timelike::with_second` on a `DateTime<FixedOffset>`: the same local
/// date, hour and minute with the second replaced; `None` for a second above 59.
#[verifier::external_body]
fn with_second(seconds: i64, offset: i32, second: u32) -> (r: Option<i64>)
    requires
        instant_near_range(seconds as int, offset as int),
    ensures
        r == if second < 60 {
            Some((seconds + (second - second_of_day(seconds as int, offset as int) % 60)) as i64)
        } else {
            None
        },
{
    let zone = chrono::FixedOffset::east_opt(offset)?;
    let instant = chrono::DateTime::from_timestamp(seconds, 0)?.with_timezone(&zone);
    chrono::Timelike::with_second(&instant, second).map(|d| d.timestamp())
}

/// `DateTime - TimeDelta::days(days)` in `chrono`: the instant that many
/// whole days of 86 400 seconds earlier.
#[verifier::external_body]
fn minus_days(seconds: i64, offset: i32, days: i64) -> (r: i64)
    requires
        instant_near_range(seconds as int, offset as int),
        instant_near_range(seconds - 86_400 * days, offset as int),
    ensures
        r == seconds - 86_400 * days,
{
    let zone = chrono::FixedOffset::east_opt(offset).unwrap();
    let instant = chrono::DateTime::from_timestamp(seconds, 0).unwrap().with_timezone(&zone);
    (instant - chrono::TimeDelta::days(days)).timestamp()
}

/// `DateTime + TimeDelta::days(days)` in `chrono`: the instant that many
/// whole days of 86 400 seconds later.
#[verifier::external_body]
pub(crate) fn plus_days(seconds: i64, offset: i32, days: i64) -> (r: i64)
    requires
        instant_near_range(seconds as int, offset as int),
        instant_near_range(seconds + 86_400 * days, offset as int),
    ensures
        r == seconds + 86_400 * days,
{
    let zone = chrono::FixedOffset::east_opt(offset).unwrap();
    let instant = chrono::DateTime::from_timestamp(seconds, 0).unwrap().with_timezone(&zone);
    (instant + chrono::TimeDelta::days(days)).timestamp()
}

/// `DateTime - TimeDelta::weeks(weeks)` in `chrono`: the instant that many
/// whole weeks of 604 800 seconds earlier.
#[verifier::external_body]
fn minus_weeks(seconds: i64, offset: i32, weeks: i64) -> (r: i64)
    requires
        instant_near_range(seconds as int, offset as int),
        instant_near_range(seconds - 604_800 * weeks, offset as int),
    ensures
        r == seconds - 604_800 * weeks,
{
    let zone = chrono::FixedOffset::east_opt(offset).unwrap();
    let instant = chrono::DateTime::from_timestamp(seconds, 0).unwrap().with_timezone(&zone);
    (instant - chrono::TimeDelta::weeks(weeks)).timestamp()
}

/// `(later - earlier).num_days()` in `chrono`: the whole days in the time
/// between two instants, rounded toward zero.
#[verifier::external_body]
fn days_elapsed(earlier: i64, later: i64) -> (r: i64)
    requires
        instant_near_range(earlier as int, 0),
        instant_near_range(later as int, 0),
    ensures
        r == whole_days(later - earlier),
{
    let start = chrono::DateTime::from_timestamp(earlier, 0).unwrap();
    let end = chrono::DateTime::from_timestamp(later, 0).unwrap();
    (end - start).num_days()
}

/// `chrono::Datelike::weekday` on a `DateTime<FixedOffset>`, counted from
/// Monday by `Weekday::num_days_from_monday`: the weekday of the local date.
#[verifier::external_body]
fn days_from_monday(seconds: i64, offset: i32) -> (r: u32)
    requires
        instant_near_range(seconds as int, offset as int),
    ensures
        r == weekday_from_monday(seconds as int, offset as int),
{
    let zone = chrono::FixedOffset::east_opt(offset).unwrap();
    let instant = chrono::DateTime::from_timestamp(seconds, 0).unwrap().with_timezone(&zone);
    chrono::Datelike::weekday(&instant).num_days_from_monday()
}

/// Removing `k` seconds that do not reach back past local midnight lowers
/// the second of the day by `k`.
pub proof fn lemma_second_of_day_shift(seconds: int, offset: int, k: int)
    requires
        0 <= k <= second_of_day(seconds, offset),
    ensures
        second_of_day(seconds - k, offset) == second_of_day(seconds, offset) - k,
{
    let a = seconds + offset;
    vstd::arithmetic::div_mod::lemma_fundamental_div_mod(a, 86_400);
    vstd::arithmetic::div_mod::lemma_fundamental_div_mod_converse(
        a - k,
        86_400,
        a / 86_400,
        a % 86_400 - k,
    );
}

/// Moving an instant by whole days moves the start of its day as far.
pub proof fn lemma_day_start_shift(seconds: int, offset: int, days: int)
    ensures
        day_start(seconds + 86_400 * days, offset) == day_start(seconds, offset) + 86_400 * days,
{
    vstd::arithmetic::div_mod::lemma_mod_multiples_vanish(days, seconds + offset, 86_400);
    assert(seconds + 86_400 * days + offset == 86_400 * days + (seconds + offset));
}

/// The start of a day is at most a day before any instant of the day.
pub proof fn lemma_day_start_bounds(seconds: int, offset: int)
    ensures
        seconds - 86_400 < day_start(seconds, offset) <= seconds,
        day_start(day_start(seconds, offset), offset) == day_start(seconds, offset),
{
    lemma_second_of_day_shift(seconds, offset, second_of_day(seconds, offset));
}

/// Every instant from a local midnight up to the next belongs to its day.
pub proof fn lemma_within_day(midnight: int, seconds: int, offset: int)
    requires
        day_start(midnight, offset) == midnight,
        midnight <= seconds < midnight + 86_400,
    ensures
        day_start(seconds, offset) == midnight,
{
    vstd::arithmetic::div_mod::lemma_fundamental_div_mod(midnight + offset, 86_400);
    vstd::arithmetic::div_mod::lemma_fundamental_div_mod_converse(
        seconds + offset,
        86_400,
        (midnight + offset) / 86_400,
        seconds - midnight,
    );
}

/// A later instant's day does not start before an earlier instant's day.
pub proof fn lemma_day_start_monotone(earlier: int, later: int, offset: int)
    requires
        earlier <= later,
    ensures
        day_start(earlier, offset) <= day_start(later, offset),
{
    vstd::arithmetic::div_mod::lemma_fundamental_div_mod(earlier + offset, 86_400);
    vstd::arithmetic::div_mod::lemma_fundamental_div_mod(later + offset, 86_400);
    vstd::arithmetic::div_mod::lemma_div_is_ordered(earlier + offset, later + offset, 86_400);
}

/// Under one offset, the starts of two days lie a whole number of days apart.
pub proof fn lemma_day_starts_apart(earlier: int, later: int, offset: int)
    requires
        earlier <= later,
    ensures
        day_start(later, offset) == day_start(earlier, offset) + 86_400 * whole_days(
            day_start(later, offset) - day_start(earlier, offset),
        ),
        whole_days(day_start(later, offset) - day_start(earlier, offset)) >= 0,
{
    lemma_day_start_monotone(earlier, later, offset);
    vstd::arithmetic::div_mod::lemma_fundamental_div_mod(earlier + offset, 86_400);
    vstd::arithmetic::div_mod::lemma_fundamental_div_mod(later + offset, 86_400);
    let a = (earlier + offset) / 86_400;
    let b = (later + offset) / 86_400;
    let d = day_start(later, offset) - day_start(earlier, offset);
    assert(d == 86_400 * (b - a)) by (nonlinear_arith)
        requires
            d == 86_400 * b - 86_400 * a,
    ;
    vstd::arithmetic::div_mod::lemma_fundamental_div_mod_converse(d, 86_400, b - a, 0);
}

/// Whole days never count more time than there is.
pub proof fn lemma_whole_days_bound(delta: int)
    ensures
        delta >= 0 ==> 0 <= 86_400 * whole_days(delta) <= delta,
        delta < 86_400 ==> whole_days(delta) <= 0,
{
    if delta >= 0 {
        vstd::arithmetic::div_mod::lemma_fundamental_div_mod(delta, 86_400);
    } else {
        vstd::arithmetic::div_mod::lemma_fundamental_div_mod(-delta, 86_400);
    }
}

/// The start of the week of an instant is the local midnight that begins a
/// Monday, no later than the instant and less than seven days before it; the
/// start of the week `weeks` weeks back lies that many weeks before it.
pub proof fn week_starts_on_monday(seconds: int, offset: int, weeks: int)
    ensures
        second_of_day(week_start_back(seconds, offset, 0), offset) == 0,
        weekday_from_monday(week_start_back(seconds, offset, 0), offset) == 0,
        week_start_back(seconds, offset, 0) <= seconds < week_start_back(seconds, offset, 0)
            + 604_800,
        week_start_back(seconds, offset, 0) == day_start(seconds, offset) - 86_400
            * weekday_from_monday(seconds, offset),
        week_start_back(seconds, offset, weeks) == week_start_back(seconds, offset, 0) - 604_800
            * weeks,
{
    let day = (seconds + offset) / 86_400;
    let weekday = weekday_from_monday(seconds, offset);
    let monday = week_start_back(seconds, offset, 0);
    lemma_day_start_shift(seconds, offset, -weekday);
    lemma_day_start_shift(seconds - 604_800 * weeks, offset, -weekday);
    lemma_day_start_shift(seconds, offset, -7 * weeks);
    lemma_day_start_bounds(seconds, offset);
    vstd::arithmetic::div_mod::lemma_fundamental_div_mod(seconds + offset, 86_400);
    vstd::arithmetic::div_mod::lemma_fundamental_div_mod(day + 3, 7);
    assert(monday + offset == 86_400 * (day - weekday));
    vstd::arithmetic::div_mod::lemma_fundamental_div_mod_converse(
        monday + offset,
        86_400,
        day - weekday,
        0,
    );
    vstd::arithmetic::div_mod::lemma_fundamental_div_mod_converse(
        day - weekday + 3,
        7,
        (day + 3) / 7,
        0,
    );
}

/// A local instant: whole seconds since the Unix epoch and the offset of
/// local time from UTC in seconds, east positive.
#[derive(Clone, Copy, Debug, PartialEq, Eq, Structural)]
pub struct LocalDateTime {
    pub timestamp: i64,
    pub offset: i32,
}

impl LocalDateTime {
    /// Whether the instant lies in the range this module computes with.
    pub open spec fn valid(&self) -> bool {
        instant_in_range(self.timestamp as int, self.offset as int)
    }
}

/// Day and week boundaries of a local instant.
pub trait DateTimeExtensions: Sized {
    /// Seconds since the Unix epoch.
    spec fn seconds(&self) -> int;

    /// Offset of local time from UTC in seconds, east positive.
    spec fn offset_seconds(&self) -> int;

    /// Local midnight of the same calendar day.
    fn start_of_day(&self) -> (r: Option<Self>)
        requires
            instant_in_range(self.seconds(), self.offset_seconds()),
        ensures
            r is Some,
            r->0.seconds() == day_start(self.seconds(), self.offset_seconds()),
            r->0.offset_seconds() == self.offset_seconds(),
    ;

    /// Timestamp of local midnight of the day `days_to_subtract` days back.
    fn start_of_day_ts(&self, days_to_subtract: i64) -> (r: u32)
        requires
            instant_in_range(self.seconds(), self.offset_seconds()),
            0 <= day_start_back(self.seconds(), self.offset_seconds(), days_to_subtract as int)
                <= u32::MAX,
        ensures
            r == day_start_back(self.seconds(), self.offset_seconds(), days_to_subtract as int),
    ;

    /// Timestamp of local midnight of the Monday `weeks_to_subtract` weeks back.
    fn start_of_week_ts(&self, weeks_to_subtract: i64) -> (r: u32)
        requires
            instant_in_range(self.seconds(), self.offset_seconds()),
            0 <= week_start_back(self.seconds(), self.offset_seconds(), weeks_to_subtract as int)
                <= u32::MAX,
        ensures
            r == week_start_back(self.seconds(), self.offset_seconds(), weeks_to_subtract as int),
    ;

    /// Whole days from the start of this instant's day to the start of the
    /// day of `to`; negative when `to` lies on an earlier day.
    fn num_days_between_starts(&self, to: Self) -> (r: i64)
        requires
            instant_in_range(self.seconds(), self.offset_seconds()),
            instant_in_range(to.seconds(), to.offset_seconds()),
        ensures
            r == days_between_day_starts(
                self.seconds(),
                self.offset_seconds(),
                to.seconds(),
                to.offset_seconds(),
            ),
    ;
}

impl DateTimeExtensions for LocalDateTime {
    open spec fn seconds(&self) -> int {
        self.timestamp as int
    }

    open spec fn offset_seconds(&self) -> int {
        self.offset as int
    }

    fn start_of_day(&self) -> (r: Option<LocalDateTime>) {
        let ghost s = second_of_day(self.timestamp as int, self.offset as int);
        let hour = with_hour(self.timestamp, self.offset, 0)?;
        proof {
            lemma_second_of_day_shift(self.timestamp as int, self.offset as int, s / 3600 * 3600);
        }
        let minute = with_minute(hour, self.offset, 0)?;
        proof {
            let s1 = s - s / 3600 * 3600;
            lemma_second_of_day_shift(hour as int, self.offset as int, s1 / 60 % 60 * 60);
        }
        let second = with_second(minute, self.offset, 0)?;
        Some(LocalDateTime { timestamp: second, offset: self.offset })
    }

    fn start_of_day_ts(&self, days_to_subtract: i64) -> (r: u32) {
        let shifted = LocalDateTime {
            timestamp: minus_days(self.timestamp, self.offset, days_to_subtract),
            offset: self.offset,
        };
        shifted.start_of_day().unwrap().timestamp as u32
    }

    fn start_of_week_ts(&self, weeks_to_subtract: i64) -> (r: u32) {
        let weekday = days_from_monday(self.timestamp, self.offset);
        let shifted = LocalDateTime {
            timestamp: minus_weeks(self.timestamp, self.offset, weeks_to_subtract),
            offset: self.offset,
        };
        shifted.start_of_day_ts(weekday as i64)
    }

    fn num_days_between_starts(&self, to: LocalDateTime) -> (r: i64) {
        let from_start = self.start_of_day().unwrap();
        let to_start = to.start_of_day().unwrap();
        days_elapsed(from_start.timestamp, to_start.timestamp)
    }
}

} // verus!
