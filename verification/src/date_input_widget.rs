//! A date field edited with the arrow keys: left and right move between the
//! day, the month and the year; up and down step the part selected.

use crate::date::{
    days_after, days_before, months_after, months_before, months_earlier, months_later, Date,
    LAST_DAY,
};
use vstd::prelude::*;

verus! {

/// Which part of the date the arrow keys act on.
#[derive(Debug, PartialEq, Eq, Clone, Copy, Structural)]
pub enum Selection {
    Nothing,
    Day,
    Month,
    Year,
}

/// A key as the date fields see it.
#[derive(Debug, PartialEq, Eq, Clone, Copy, Structural)]
pub enum Key {
    Left,
    Right,
    Up,
    Down,
    Other,
}

/// The format of a part of a date.
pub open spec fn date_part(selection: Selection) -> Seq<char> {
    match selection {
        Selection::Day => "%d"@,
        Selection::Month => "%m"@,
        _ => "%Y"@,
    }
}

impl Selection {
    /// The format of the selected part of a date. Nothing selected has none.
    pub fn as_date_part(&self) -> (format: &'static str)
        requires
            *self != Selection::Nothing,
        ensures
            format@ == date_part(*self),
    {
        match self {
            Selection::Day => "%d",
            Selection::Month => "%m",
            _ => "%Y",
        }
    }
}

/// The part selected after the left arrow.
pub open spec fn part_to_left(selection: Selection) -> Selection {
    match selection {
        Selection::Day => Selection::Nothing,
        Selection::Month => Selection::Day,
        Selection::Year => Selection::Month,
        Selection::Nothing => Selection::Nothing,
    }
}

/// The part selected after the right arrow.
pub open spec fn part_to_right(selection: Selection) -> Selection {
    match selection {
        Selection::Day => Selection::Month,
        Selection::Month => Selection::Year,
        Selection::Year => Selection::Nothing,
        Selection::Nothing => Selection::Nothing,
    }
}

/// The day one step of the selected part later, before any limit applies.
pub open spec fn step_later(date: Date, selection: Selection) -> Option<i32> {
    match selection {
        Selection::Day => Some((date.days + 1) as i32),
        Selection::Month => months_later(date.days, 1),
        Selection::Year => months_later(date.days, 12),
        Selection::Nothing => Some(date.days),
    }
}

/// The day one step of the selected part earlier, before any limit applies.
pub open spec fn step_earlier(date: Date, selection: Selection) -> Option<i32> {
    match selection {
        Selection::Day => Some((date.days - 1) as i32),
        Selection::Month => months_earlier(date.days, 1),
        Selection::Year => months_earlier(date.days, 12),
        Selection::Nothing => Some(date.days),
    }
}

/// Where a step lands: on the day stepped to, or the nearest day 32-bit
/// timestamps reach; a step to no date leaves the day where it was.
pub open spec fn landed(current: Date, stepped: Option<i32>) -> Date {
    match stepped {
        Some(days) => Date {
            days: if days < 0 {
                0
            } else if days > LAST_DAY {
                LAST_DAY
            } else {
                days
            },
        },
        None => current,
    }
}

/// The date after a step later, held at `max` where there is one.
pub open spec fn raised(current: Date, stepped: Option<i32>, max: Option<Date>) -> Date {
    let date = landed(current, stepped);
    match max {
        Some(limit) if date.days > limit.days => limit,
        _ => date,
    }
}

/// The date after a step earlier, held at `min` where there is one.
pub open spec fn lowered(current: Date, stepped: Option<i32>, min: Option<Date>) -> Date {
    let date = landed(current, stepped);
    match min {
        Some(limit) if date.days < limit.days => limit,
        _ => date,
    }
}

/// A date and the part of it that is selected.
#[derive(Clone, Copy, Debug, PartialEq, Eq, Structural)]
pub struct DateInputState {
    pub date: Date,
    pub selection: Selection,
}

/// The state after a key, between the limits `min` and `max`. With nothing
/// selected any key selects the day.
pub open spec fn after_key(
    state: DateInputState,
    min: Option<Date>,
    max: Option<Date>,
    key: Key,
) -> DateInputState {
    if state.selection == Selection::Nothing {
        DateInputState { date: state.date, selection: Selection::Day }
    } else {
        match key {
            Key::Left => DateInputState {
                date: state.date,
                selection: part_to_left(state.selection),
            },
            Key::Right => DateInputState {
                date: state.date,
                selection: part_to_right(state.selection),
            },
            Key::Up => DateInputState {
                date: raised(state.date, step_later(state.date, state.selection), max),
                selection: state.selection,
            },
            Key::Down => DateInputState {
                date: lowered(state.date, step_earlier(state.date, state.selection), min),
                selection: state.selection,
            },
            Key::Other => state,
        }
    }
}

/// A date field with its limits.
#[derive(Clone, Copy, Debug)]
pub struct DateInputWidget {
    pub state: DateInputState,
    pub min: Option<Date>,
    pub max: Option<Date>,
}

/// The date after a step later that `chrono` answered with `stepped`.
pub fn settle_later(current: Date, stepped: Option<i32>, max: Option<Date>) -> (date: Date)
    ensures
        date == raised(current, stepped, max),
{
    let date = match stepped {
        Some(days) => Date::nearest(days),
        None => current,
    };
    match max {
        Some(limit) => if date.days > limit.days {
            limit
        } else {
            date
        },
        None => date,
    }
}

/// The date after a step earlier that `chrono` answered with `stepped`.
pub fn settle_earlier(current: Date, stepped: Option<i32>, min: Option<Date>) -> (date: Date)
    ensures
        date == lowered(current, stepped, min),
{
    let date = match stepped {
        Some(days) => Date::nearest(days),
        None => current,
    };
    match min {
        Some(limit) => if date.days < limit.days {
            limit
        } else {
            date
        },
        None => date,
    }
}

impl DateInputWidget {
    /// Whether the date and both limits are days 32-bit timestamps reach.
    pub open spec fn wf(&self) -> bool {
        &&& self.state.date.valid()
        &&& self.min is Some ==> self.min->0.valid()
        &&& self.max is Some ==> self.max->0.valid()
    }

    /// Acts on a key: with nothing selected, selects the day; otherwise
    /// moves the selection left or right, or steps the selected part up or
    /// down, holding the date at `max` going up and at `min` going down.
    pub fn handle_input(&mut self, key: Key)
        requires
            old(self).wf(),
        ensures
            final(self).wf(),
            final(self).state == after_key(old(self).state, old(self).min, old(self).max, key),
            final(self).min == old(self).min,
            final(self).max == old(self).max,
    {
        if self.state.selection == Selection::Nothing {
            self.state.selection = Selection::Day;
            return ;
        }
        let date = self.state.date;
        match key {
            Key::Left => {
                self.state.selection = match self.state.selection {
                    Selection::Day => Selection::Nothing,
                    Selection::Month => Selection::Day,
                    _ => Selection::Month,
                };
            },
            Key::Right => {
                self.state.selection = match self.state.selection {
                    Selection::Day => Selection::Month,
                    Selection::Month => Selection::Year,
                    _ => Selection::Nothing,
                };
            },
            Key::Up => {
                let stepped = match self.state.selection {
                    Selection::Day => days_after(date.days, 1),
                    Selection::Month => months_after(date.days, 1),
                    _ => months_after(date.days, 12),
                };
                self.state.date = settle_later(date, stepped, self.max);
            },
            Key::Down => {
                let stepped = match self.state.selection {
                    Selection::Day => days_before(date.days, 1),
                    Selection::Month => months_before(date.days, 1),
                    _ => months_before(date.days, 12),
                };
                self.state.date = settle_earlier(date, stepped, self.min);
            },
            Key::Other => {},
        }
    }
}

} // verus!
