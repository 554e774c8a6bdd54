//! A pair of date fields for the ends of a custom period. The arrow keys move
//! through the six parts as through one row; each date is the other's limit.

use crate::date::Date;
use crate::date_input_widget::{after_key, DateInputState, DateInputWidget, Key, Selection};
use vstd::prelude::*;

verus! {

/// The two fields after a key.
///
/// With nothing selected, the left arrow enters at the year of the second
/// date and the right arrow at the day of the first. Otherwise the key goes
/// to the field that holds the selection; when the selection leaves that
/// field toward the other, it enters the other at the near end. The date of
/// the field that took the key becomes the other field's limit.
pub open spec fn range_after_key(from: DateInputWidget, to: DateInputWidget, key: Key) -> (
    DateInputWidget,
    DateInputWidget,
) {
    if from.state.selection == Selection::Nothing && to.state.selection == Selection::Nothing {
        match key {
            Key::Left => (
                from,
                DateInputWidget {
                    state: DateInputState { date: to.state.date, selection: Selection::Year },
                    min: to.min,
                    max: to.max,
                },
            ),
            Key::Right => (
                DateInputWidget {
                    state: DateInputState { date: from.state.date, selection: Selection::Day },
                    min: from.min,
                    max: from.max,
                },
                to,
            ),
            _ => (from, to),
        }
    } else if from.state.selection != Selection::Nothing {
        let moved = after_key(from.state, from.min, from.max, key);
        (
            DateInputWidget { state: moved, min: from.min, max: from.max },
            DateInputWidget {
                state: DateInputState {
                    date: to.state.date,
                    selection: if moved.selection == Selection::Nothing && key == Key::Right {
                        Selection::Day
                    } else {
                        to.state.selection
                    },
                },
                min: Some(moved.date),
                max: to.max,
            },
        )
    } else {
        let moved = after_key(to.state, to.min, to.max, key);
        (
            DateInputWidget {
                state: DateInputState {
                    date: from.state.date,
                    selection: if moved.selection == Selection::Nothing && key == Key::Left {
                        Selection::Year
                    } else {
                        from.state.selection
                    },
                },
                min: from.min,
                max: Some(moved.date),
            },
            DateInputWidget { state: moved, min: to.min, max: to.max },
        )
    }
}

/// The fields for the first and the last day of a custom period.
#[derive(Clone, Copy, Debug)]
pub struct DateRangeInputWidget {
    pub min: Option<Date>,
    pub max: Option<Date>,
    pub inputs: (DateInputWidget, DateInputWidget),
}

/// The fields at the ends of `min ..= max` with nothing selected.
pub open spec fn fresh_range(min: Date, max: Date) -> DateRangeInputWidget {
    DateRangeInputWidget {
        min: Some(min),
        max: Some(max),
        inputs: (
            DateInputWidget {
                state: DateInputState { date: min, selection: Selection::Nothing },
                min: Some(min),
                max: Some(max),
            },
            DateInputWidget {
                state: DateInputState { date: max, selection: Selection::Nothing },
                min: Some(min),
                max: Some(max),
            },
        ),
    }
}

/// The period picked in the fields: from 00:00:00 UTC on the first day to
/// 23:59:59 UTC on the last, or to the greatest timestamp where that is
/// earlier.
pub open spec fn picked_period(fields: DateRangeInputWidget) -> (u32, u32) {
    (
        (fields.inputs.0.state.date.days * 86_400) as u32,
        if fields.inputs.1.state.date.days * 86_400 + 86_399 <= u32::MAX {
            (fields.inputs.1.state.date.days * 86_400 + 86_399) as u32
        } else {
            u32::MAX
        },
    )
}

impl DateRangeInputWidget {
    /// The field for the first day.
    pub open spec fn from(&self) -> DateInputWidget {
        self.inputs.0
    }

    /// The field for the last day.
    pub open spec fn to(&self) -> DateInputWidget {
        self.inputs.1
    }

    /// Whether both fields hold days 32-bit timestamps reach.
    pub open spec fn wf(&self) -> bool {
        self.from().wf() && self.to().wf()
    }

    /// Fields that start at the ends of `min ..= max` with nothing selected.
    pub fn new(min: Date, max: Date) -> (widget: Self)
        requires
            min.valid(),
            max.valid(),
        ensures
            widget.wf(),
            widget == fresh_range(min, max),
    {
        DateRangeInputWidget {
            inputs: (
                DateInputWidget {
                    state: DateInputState { date: min, selection: Selection::Nothing },
                    min: Some(min),
                    max: Some(max),
                },
                DateInputWidget {
                    state: DateInputState { date: max, selection: Selection::Nothing },
                    min: Some(min),
                    max: Some(max),
                },
            ),
            min: Some(min),
            max: Some(max),
        }
    }

    /// The field for the first day.
    pub fn from_input(&self) -> (field: DateInputWidget)
        ensures
            field == self.from(),
    {
        self.inputs.0
    }

    /// The field for the last day.
    pub fn to_input(&self) -> (field: DateInputWidget)
        ensures
            field == self.to(),
    {
        self.inputs.1
    }

    /// Whether a part of either date is selected.
    pub fn is_any_selected(&self) -> (selected: bool)
        ensures
            selected == (self.from().state.selection != Selection::Nothing
                || self.to().state.selection != Selection::Nothing),
    {
        self.inputs.0.state.selection != Selection::Nothing || self.inputs.1.state.selection
            != Selection::Nothing
    }

    /// Acts on a key as `range_after_key` describes.
    pub fn handle_input(&mut self, key: Key)
        requires
            old(self).wf(),
        ensures
            final(self).wf(),
            (final(self).from(), final(self).to()) == range_after_key(
                old(self).from(),
                old(self).to(),
                key,
            ),
            final(self).min == old(self).min,
            final(self).max == old(self).max,
    {
        let mut from = self.inputs.0;
        let mut to = self.inputs.1;
        if !self.is_any_selected() {
            match key {
                Key::Left => {
                    to.state.selection = Selection::Year;
                },
                Key::Right => {
                    from.state.selection = Selection::Day;
                },
                _ => {},
            }
        } else if from.state.selection != Selection::Nothing {
            from.handle_input(key);
            if from.state.selection == Selection::Nothing && key == Key::Right {
                to.state.selection = Selection::Day;
            }
            to.min = Some(from.state.date);
        } else {
            to.handle_input(key);
            if to.state.selection == Selection::Nothing && key == Key::Left {
                from.state.selection = Selection::Year;
            }
            from.max = Some(to.state.date);
        }
        self.inputs = (from, to);
    }

    /// The period picked: from 00:00:00 UTC on the first day to 23:59:59 UTC
    /// on the last.
    pub fn get_time_period(&self) -> (period: (u32, u32))
        requires
            self.wf(),
        ensures
            period == picked_period(*self),
    {
        (self.inputs.0.state.date.start_timestamp(), self.inputs.1.state.date.end_timestamp())
    }
}

} // verus!
