//! The report screen's state: which period's tab is selected, and the date
//! fields of the custom period. The arrow keys move between the tabs; on the
//! custom tab they move on into the date fields and out again.

use crate::date::Date;
use crate::date_input_widget::{Key, Selection};
use crate::date_range_input_widget::{
    fresh_range, picked_period, range_after_key, DateRangeInputWidget,
};
use crate::datetime::LocalDateTime;
use crate::period::{range_fits, time_range, title, StatsPeriod};
use crate::report::WindowStat;
use crate::tracker::storable;
use vstd::prelude::*;

verus! {

/// The number of tabs; the last is the custom period's.
pub const TAB_COUNT: usize = 7;

/// The period of each tab, left to right.
pub open spec fn tab_period(tab: int) -> StatsPeriod {
    if tab == 0 {
        StatsPeriod::Total
    } else if tab == 1 {
        StatsPeriod::Today
    } else if tab == 2 {
        StatsPeriod::Yesterday
    } else if tab == 3 {
        StatsPeriod::Last3Days
    } else if tab == 4 {
        StatsPeriod::ThisWeek
    } else if tab == 5 {
        StatsPeriod::LastWeek
    } else {
        StatsPeriod::Custom
    }
}

/// The tab selected after a key, the tabs forming a ring.
pub open spec fn tab_after_key(tab: int, key: Key) -> int {
    match key {
        Key::Left => (tab + 6) % 7,
        Key::Right => (tab + 1) % 7,
        _ => tab,
    }
}

/// The date fields after a key.
pub open spec fn fields_after_key(fields: DateRangeInputWidget, key: Key) -> DateRangeInputWidget {
    DateRangeInputWidget {
        min: fields.min,
        max: fields.max,
        inputs: range_after_key(fields.inputs.0, fields.inputs.1, key),
    }
}

/// Whether a part of either date is selected.
pub open spec fn any_selected(fields: DateRangeInputWidget) -> bool {
    fields.inputs.0.state.selection != Selection::Nothing || fields.inputs.1.state.selection
        != Selection::Nothing
}

/// The state of the report screen.
#[derive(Clone, Copy, Debug)]
pub struct UI {
    pub selected_tab: usize,
    pub date_range_input: DateRangeInputWidget,
}

/// The screen after a key.
///
/// While a date part is selected the key goes to the date fields; when that
/// leaves nothing selected, the left arrow lands on the tab before the custom
/// one and the right arrow on the first tab. Otherwise the key moves between
/// the tabs, and on arriving at the custom tab goes on to the date fields.
pub open spec fn screen_after_key(screen: UI, key: Key) -> UI {
    if any_selected(screen.date_range_input) {
        let fields = fields_after_key(screen.date_range_input, key);
        UI {
            selected_tab: if any_selected(fields) {
                screen.selected_tab
            } else {
                match key {
                    Key::Left => 5,
                    Key::Right => 0,
                    _ => screen.selected_tab,
                }
            },
            date_range_input: fields,
        }
    } else {
        let tab = tab_after_key(screen.selected_tab as int, key);
        UI {
            selected_tab: tab as usize,
            date_range_input: if tab == 6 {
                fields_after_key(screen.date_range_input, key)
            } else {
                screen.date_range_input
            },
        }
    }
}

/// The sum of the seconds of a report's lines.
pub open spec fn sum_seconds(stats: Seq<WindowStat>) -> int
    decreases stats.len(),
{
    if stats.len() == 0 {
        0
    } else {
        sum_seconds(stats.drop_last()) + stats.last().seconds
    }
}

impl UI {
    /// Whether a tab is selected and the date fields hold days 32-bit
    /// timestamps reach.
    pub open spec fn wf(&self) -> bool {
        self.selected_tab < TAB_COUNT && self.date_range_input.wf()
    }

    /// The screen as it opens: the first tab, and a custom period from
    /// `min_date` to `today`.
    pub fn new(min_date: Date, today: Date) -> (screen: UI)
        requires
            min_date.valid(),
            today.valid(),
        ensures
            screen.wf(),
            screen.selected_tab == 0,
            screen.date_range_input == fresh_range(min_date, today),
    {
        UI { selected_tab: 0, date_range_input: DateRangeInputWidget::new(min_date, today) }
    }

    /// The period of a tab.
    pub fn period_at(tab: usize) -> (period: StatsPeriod)
        ensures
            period == tab_period(tab as int),
    {
        if tab == 0 {
            StatsPeriod::Total
        } else if tab == 1 {
            StatsPeriod::Today
        } else if tab == 2 {
            StatsPeriod::Yesterday
        } else if tab == 3 {
            StatsPeriod::Last3Days
        } else if tab == 4 {
            StatsPeriod::ThisWeek
        } else if tab == 5 {
            StatsPeriod::LastWeek
        } else {
            StatsPeriod::Custom
        }
    }

    /// Whether the custom period's tab is selected.
    pub fn is_custom(&self) -> (custom: bool)
        ensures
            custom == (self.selected_tab == TAB_COUNT - 1),
    {
        self.selected_tab == TAB_COUNT - 1
    }

    /// The titles of the tabs, left to right. The custom tab, while
    /// selected, shows its date fields in place of a title.
    pub fn titles(&self) -> (titles: Vec<&'static str>)
        ensures
            titles@.len() == TAB_COUNT,
            forall|tab: int|
                0 <= tab < TAB_COUNT ==> (#[trigger] titles@[tab])@ == if tab == TAB_COUNT - 1
                    && self.selected_tab == TAB_COUNT - 1 {
                    Seq::<char>::empty()
                } else {
                    title(tab_period(tab))
                },
    {
        let mut titles: Vec<&'static str> = Vec::new();
        let mut tab: usize = 0;
        proof {
            reveal_strlit("");
        }
        while tab < TAB_COUNT
            invariant
                tab <= TAB_COUNT,
                titles@.len() == tab,
                "".view().len() == 0,
                forall|t: int|
                    0 <= t < tab ==> (#[trigger] titles@[t])@ == if t == TAB_COUNT - 1
                        && self.selected_tab == TAB_COUNT - 1 {
                        Seq::<char>::empty()
                    } else {
                        title(tab_period(t))
                    },
            decreases TAB_COUNT - tab,
        {
            let period = UI::period_at(tab);
            let text = if tab == TAB_COUNT - 1 && self.is_custom() {
                ""
            } else {
                period.as_title()
            };
            assert(tab == TAB_COUNT - 1 && self.selected_tab == TAB_COUNT - 1 ==> text@
                =~= Seq::<char>::empty());
            titles.push(text);
            tab += 1;
        }
        titles
    }

    /// Acts on a key as `screen_after_key` describes.
    pub fn handle_key(&mut self, key: Key)
        requires
            old(self).wf(),
        ensures
            final(self).wf(),
            *final(self) == screen_after_key(*old(self), key),
    {
        if self.date_range_input.is_any_selected() {
            self.date_range_input.handle_input(key);
            if !self.date_range_input.is_any_selected() {
                match key {
                    Key::Left => {
                        self.selected_tab = TAB_COUNT - 2;
                    },
                    Key::Right => {
                        self.selected_tab = 0;
                    },
                    _ => {},
                }
            }
        } else {
            match key {
                Key::Left => {
                    self.selected_tab = (self.selected_tab + TAB_COUNT - 1) % TAB_COUNT;
                },
                Key::Right => {
                    self.selected_tab = (self.selected_tab + 1) % TAB_COUNT;
                },
                _ => {},
            }
            if self.selected_tab == TAB_COUNT - 1 {
                self.date_range_input.handle_input(key);
            }
        }
    }

    /// The range of timestamps to report on at `now`: on the custom tab the
    /// range picked in the date fields, otherwise the range of the tab's
    /// period; none for the whole log.
    pub fn time_period(&self, now: LocalDateTime) -> (range: Option<(u32, u32)>)
        requires
            self.wf(),
            storable(now),
            range_fits(
                tab_period(self.selected_tab as int),
                now.timestamp as int,
                now.offset as int,
            ),
        ensures
            self.selected_tab == TAB_COUNT - 1 ==> range == Some(
                picked_period(self.date_range_input),
            ),
            self.selected_tab != TAB_COUNT - 1 ==> match time_range(
                tab_period(self.selected_tab as int),
                now.timestamp as int,
                now.offset as int,
            ) {
                None => range is None,
                Some((from, to)) => range == Some((from as u32, to as u32)),
            },
    {
        if self.is_custom() {
            Some(self.date_range_input.get_time_period())
        } else {
            UI::period_at(self.selected_tab).as_time_period(now)
        }
    }

    /// The seconds of all the lines of a report together.
    pub fn total_seconds(stats: &Vec<WindowStat>) -> (total: u64)
        requires
            stats@.len() <= u32::MAX,
        ensures
            total == sum_seconds(stats@),
    {
        let mut total: u64 = 0;
        let mut i: usize = 0;
        proof {
            assert(stats@.take(0) =~= Seq::<WindowStat>::empty());
        }
        while i < stats.len()
            invariant
                i <= stats@.len(),
                stats@.len() <= u32::MAX,
                total == sum_seconds(stats@.take(i as int)),
                total <= i * u32::MAX,
            decreases stats@.len() - i,
        {
            proof {
                assert(stats@.take(i + 1).drop_last() =~= stats@.take(i as int));
                assert(i * u32::MAX + u32::MAX == (i + 1) * u32::MAX) by (nonlinear_arith);
                assert((i + 1) * u32::MAX <= u32::MAX * u32::MAX) by (nonlinear_arith)
                    requires
                        i + 1 <= u32::MAX,
                ;
            }
            total = total + stats[i].seconds as u64;
            i += 1;
        }
        proof {
            assert(stats@.take(i as int) =~= stats@);
        }
        total
    }
}

/// The character of one decimal digit.
pub open spec fn digit(d: int) -> char {
    if d == 0 {
        '0'
    } else if d == 1 {
        '1'
    } else if d == 2 {
        '2'
    } else if d == 3 {
        '3'
    } else if d == 4 {
        '4'
    } else if d == 5 {
        '5'
    } else if d == 6 {
        '6'
    } else if d == 7 {
        '7'
    } else if d == 8 {
        '8'
    } else {
        '9'
    }
}

/// The decimal digits of `n`, most significant first, without padding.
pub open spec fn decimal(n: nat) -> Seq<char>
    decreases n,
{
    if n < 10 {
        seq![digit(n as int)]
    } else {
        decimal(n / 10).push(digit((n % 10) as int))
    }
}

/// A duration as text, in the largest unit that is not zero and every unit
/// below it: `"42s"`, `"3m 5s"`, `"2h 0m 9s"`, `"1d 1h 1m 1s"`.
pub open spec fn formatted_time(seconds: nat) -> Seq<char> {
    let minutes = seconds / 60;
    let hours = minutes / 60;
    let days = hours / 24;
    let tail_seconds = decimal(seconds % 60) + seq!['s'];
    let tail_minutes = decimal(minutes % 60) + seq!['m', ' '] + tail_seconds;
    let tail_hours = decimal(hours % 24) + seq!['h', ' '] + tail_minutes;
    if minutes == 0 {
        decimal(seconds) + seq!['s']
    } else if hours == 0 {
        decimal(minutes) + seq!['m', ' '] + tail_seconds
    } else if days == 0 {
        decimal(hours) + seq!['h', ' '] + tail_minutes
    } else {
        decimal(days) + seq!['d', ' '] + tail_hours
    }
}

/// The text of one decimal digit.
fn digit_text(d: u32) -> (text: &'static str)
    requires
        d < 10,
    ensures
        text@ == seq![digit(d as int)],
{
    proof {
        reveal_strlit("0");
        reveal_strlit("1");
        reveal_strlit("2");
        reveal_strlit("3");
        reveal_strlit("4");
        reveal_strlit("5");
        reveal_strlit("6");
        reveal_strlit("7");
        reveal_strlit("8");
        reveal_strlit("9");
    }
    let text = if d == 0 {
        "0"
    } else if d == 1 {
        "1"
    } else if d == 2 {
        "2"
    } else if d == 3 {
        "3"
    } else if d == 4 {
        "4"
    } else if d == 5 {
        "5"
    } else if d == 6 {
        "6"
    } else if d == 7 {
        "7"
    } else if d == 8 {
        "8"
    } else {
        "9"
    };
    assert(text@ =~= seq![digit(d as int)]);
    text
}

/// Appends the decimal digits of `n` to `out`.
fn push_decimal(out: &mut String, n: u32)
    ensures
        final(out)@ == old(out)@ + decimal(n as nat),
    decreases n,
{
    if n >= 10 {
        push_decimal(out, n / 10);
    }
    out.append(digit_text(n % 10));
    assert(final(out)@ =~= old(out)@ + decimal(n as nat));
}

/// A report line as it is shown.
pub struct WindowStatRow {
    pub window_stat: WindowStat,
}

impl WindowStatRow {
    /// A duration as text, in the largest unit that is not zero and every
    /// unit below it.
    pub fn format_time(seconds: u32) -> (text: String)
        ensures
            text@ == formatted_time(seconds as nat),
    {
        proof {
            reveal_strlit("s");
            reveal_strlit("m ");
            reveal_strlit("h ");
            reveal_strlit("d ");
        }
        let minutes = seconds / 60;
        let hours = minutes / 60;
        let days = hours / 24;
        let mut text = String::new();
        if minutes == 0 {
            push_decimal(&mut text, seconds);
            text.append("s");
            assert(text@ =~= formatted_time(seconds as nat));
            return text;
        }
        if days != 0 {
            push_decimal(&mut text, days);
            text.append("d ");
            push_decimal(&mut text, hours % 24);
            text.append("h ");
            push_decimal(&mut text, minutes % 60);
            text.append("m ");
        } else if hours != 0 {
            push_decimal(&mut text, hours);
            text.append("h ");
            push_decimal(&mut text, minutes % 60);
            text.append("m ");
        } else {
            push_decimal(&mut text, minutes);
            text.append("m ");
        }
        push_decimal(&mut text, seconds % 60);
        text.append("s");
        assert(text@ =~= formatted_time(seconds as nat));
        text
    }
}

} // verus!
