use app_time::date::Date;
use app_time::date_input_widget::{
    settle_earlier, settle_later, DateInputState, DateInputWidget, Key, Selection,
};
use app_time::date_range_input_widget::DateRangeInputWidget;

const JAN_31: Date = Date { days: 19_753 };

fn field(date: Date, selection: Selection) -> DateInputWidget {
    DateInputWidget { state: DateInputState { date, selection }, min: None, max: None }
}

fn after(mut widget: DateInputWidget, key: Key) -> DateInputState {
    widget.handle_input(key);
    widget.state
}

#[test]
fn days_within_reach() {
    assert_eq!(Date::from_days(0), Some(Date { days: 0 }));
    assert_eq!(Date::from_days(49_710), Some(Date { days: 49_710 }));
    assert_eq!(Date::from_days(49_711), None);
    assert_eq!(Date::from_days(-1), None);
}

#[test]
fn nearest_day_within_reach() {
    assert_eq!(Date::nearest(-5), Date { days: 0 });
    assert_eq!(Date::nearest(12), Date { days: 12 });
    assert_eq!(Date::nearest(50_000), Date { days: 49_710 });
}

#[test]
fn day_of_a_timestamp() {
    assert_eq!(Date::from_timestamp(0), Date { days: 0 });
    assert_eq!(Date::from_timestamp(86_399), Date { days: 0 });
    assert_eq!(Date::from_timestamp(86_400), Date { days: 1 });
    assert_eq!(Date::from_timestamp(1_706_745_599), JAN_31);
    assert_eq!(Date::from_timestamp(4_294_967_295), Date { days: 49_710 });
}

#[test]
fn timestamps_of_a_day() {
    assert_eq!(JAN_31.start_timestamp(), 1_706_659_200);
    assert_eq!(JAN_31.end_timestamp(), 1_706_745_599);
    assert_eq!(Date { days: 0 }.start_timestamp(), 0);
    assert_eq!(Date { days: 0 }.end_timestamp(), 86_399);
}

#[test]
fn the_last_day_ends_at_the_greatest_timestamp() {
    assert_eq!(Date { days: 49_710 }.start_timestamp(), 4_294_944_000);
    assert_eq!(Date { days: 49_710 }.end_timestamp(), 4_294_967_295);
    assert_eq!(Date { days: 49_709 }.end_timestamp(), 4_294_943_999);
}

#[test]
fn any_key_selects_the_day_first() {
    for key in [Key::Left, Key::Right, Key::Up, Key::Down, Key::Other] {
        assert_eq!(
            after(field(JAN_31, Selection::Nothing), key),
            DateInputState { date: JAN_31, selection: Selection::Day }
        );
    }
}

#[test]
fn left_and_right_move_the_selection() {
    assert_eq!(after(field(JAN_31, Selection::Day), Key::Right).selection, Selection::Month);
    assert_eq!(after(field(JAN_31, Selection::Month), Key::Right).selection, Selection::Year);
    assert_eq!(after(field(JAN_31, Selection::Year), Key::Right).selection, Selection::Nothing);
    assert_eq!(after(field(JAN_31, Selection::Day), Key::Left).selection, Selection::Nothing);
    assert_eq!(after(field(JAN_31, Selection::Month), Key::Left).selection, Selection::Day);
    assert_eq!(after(field(JAN_31, Selection::Year), Key::Left).selection, Selection::Month);
    assert_eq!(after(field(JAN_31, Selection::Year), Key::Left).date, JAN_31);
}

#[test]
fn other_keys_change_nothing_once_selected() {
    assert_eq!(
        after(field(JAN_31, Selection::Month), Key::Other),
        DateInputState { date: JAN_31, selection: Selection::Month }
    );
}

#[test]
fn up_and_down_step_the_day() {
    assert_eq!(after(field(JAN_31, Selection::Day), Key::Up).date, Date { days: 19_754 });
    assert_eq!(after(field(JAN_31, Selection::Day), Key::Down).date, Date { days: 19_752 });
    assert_eq!(after(field(JAN_31, Selection::Day), Key::Up).selection, Selection::Day);
}

#[test]
fn up_and_down_step_the_month_to_the_last_day_of_a_shorter_one() {
    assert_eq!(after(field(JAN_31, Selection::Month), Key::Up).date, Date { days: 19_782 });
    assert_eq!(after(field(JAN_31, Selection::Month), Key::Down).date, Date { days: 19_722 });
    let mar_29 = Date { days: 19_811 };
    assert_eq!(after(field(mar_29, Selection::Month), Key::Down).date, Date { days: 19_782 });
}

#[test]
fn up_and_down_step_the_year() {
    assert_eq!(after(field(JAN_31, Selection::Year), Key::Up).date, Date { days: 20_119 });
    assert_eq!(after(field(JAN_31, Selection::Year), Key::Down).date, Date { days: 19_388 });
    let feb_29 = Date { days: 19_782 };
    assert_eq!(after(field(feb_29, Selection::Year), Key::Up).date, Date { days: 20_147 });
    assert_eq!(after(field(feb_29, Selection::Year), Key::Down).date, Date { days: 19_416 });
}

#[test]
fn up_stops_at_the_upper_limit_and_down_at_the_lower() {
    let mut widget = field(JAN_31, Selection::Month);
    widget.max = Some(Date { days: 19_760 });
    widget.min = Some(Date { days: 19_750 });
    assert_eq!(after(widget, Key::Up).date, Date { days: 19_760 });
    assert_eq!(after(widget, Key::Down).date, Date { days: 19_750 });
    widget.state.selection = Selection::Day;
    assert_eq!(after(widget, Key::Up).date, Date { days: 19_754 });
}

#[test]
fn only_the_limit_in_the_direction_of_the_step_applies() {
    let mut widget = field(JAN_31, Selection::Day);
    widget.min = Some(Date { days: 19_800 });
    assert_eq!(after(widget, Key::Up).date, Date { days: 19_754 });
    widget.min = None;
    widget.max = Some(Date { days: 19_700 });
    assert_eq!(after(widget, Key::Down).date, Date { days: 19_752 });
}

#[test]
fn steps_stop_at_the_ends_of_the_reach_of_timestamps() {
    assert_eq!(after(field(Date { days: 49_710 }, Selection::Day), Key::Up).date, Date { days: 49_710 });
    assert_eq!(after(field(Date { days: 49_679 }, Selection::Month), Key::Up).date, Date { days: 49_710 });
    assert_eq!(after(field(Date { days: 49_700 }, Selection::Month), Key::Up).date, Date { days: 49_710 });
    assert_eq!(after(field(Date { days: 49_345 }, Selection::Year), Key::Up).date, Date { days: 49_710 });
    assert_eq!(after(field(Date { days: 0 }, Selection::Day), Key::Down).date, Date { days: 0 });
    assert_eq!(after(field(Date { days: 31 }, Selection::Month), Key::Down).date, Date { days: 0 });
    assert_eq!(after(field(Date { days: 30 }, Selection::Month), Key::Down).date, Date { days: 0 });
    assert_eq!(after(field(Date { days: 365 }, Selection::Year), Key::Down).date, Date { days: 0 });
}

#[test]
fn settling_a_step_later() {
    let limit = Some(Date { days: 100 });
    assert_eq!(settle_later(Date { days: 50 }, Some(60), limit), Date { days: 60 });
    assert_eq!(settle_later(Date { days: 50 }, Some(100), limit), Date { days: 100 });
    assert_eq!(settle_later(Date { days: 50 }, Some(101), limit), Date { days: 100 });
    assert_eq!(settle_later(Date { days: 50 }, Some(60), None), Date { days: 60 });
    assert_eq!(settle_later(Date { days: 50 }, Some(60_000), None), Date { days: 49_710 });
    assert_eq!(settle_later(Date { days: 50 }, None, None), Date { days: 50 });
    assert_eq!(settle_later(Date { days: 50 }, None, Some(Date { days: 40 })), Date { days: 40 });
}

#[test]
fn settling_a_step_earlier() {
    let limit = Some(Date { days: 40 });
    assert_eq!(settle_earlier(Date { days: 50 }, Some(45), limit), Date { days: 45 });
    assert_eq!(settle_earlier(Date { days: 50 }, Some(40), limit), Date { days: 40 });
    assert_eq!(settle_earlier(Date { days: 50 }, Some(39), limit), Date { days: 40 });
    assert_eq!(settle_earlier(Date { days: 50 }, Some(-3), None), Date { days: 0 });
    assert_eq!(settle_earlier(Date { days: 50 }, None, None), Date { days: 50 });
    assert_eq!(settle_earlier(Date { days: 50 }, None, Some(Date { days: 60 })), Date { days: 60 });
}

#[test]
fn a_new_range_spans_its_limits_with_nothing_selected() {
    let range = DateRangeInputWidget::new(Date { days: 19_700 }, Date { days: 19_800 });
    assert_eq!(range.min, Some(Date { days: 19_700 }));
    assert_eq!(range.max, Some(Date { days: 19_800 }));
    assert_eq!(range.from_input().state, DateInputState { date: Date { days: 19_700 }, selection: Selection::Nothing });
    assert_eq!(range.to_input().state, DateInputState { date: Date { days: 19_800 }, selection: Selection::Nothing });
    assert_eq!(range.from_input().max, Some(Date { days: 19_800 }));
    assert_eq!(range.to_input().min, Some(Date { days: 19_700 }));
    assert!(!range.is_any_selected());
}

#[test]
fn the_period_picked_runs_from_midnight_to_the_last_second() {
    let range = DateRangeInputWidget::new(JAN_31, Date { days: 19_754 });
    assert_eq!(range.get_time_period(), (1_706_659_200, 1_706_831_999));
}

#[test]
fn arrows_enter_the_range_at_its_ends() {
    let mut range = DateRangeInputWidget::new(Date { days: 19_700 }, Date { days: 19_800 });
    range.handle_input(Key::Right);
    assert_eq!(range.from_input().state.selection, Selection::Day);
    assert_eq!(range.to_input().state.selection, Selection::Nothing);
    let mut range = DateRangeInputWidget::new(Date { days: 19_700 }, Date { days: 19_800 });
    range.handle_input(Key::Left);
    assert_eq!(range.from_input().state.selection, Selection::Nothing);
    assert_eq!(range.to_input().state.selection, Selection::Year);
    let mut range = DateRangeInputWidget::new(Date { days: 19_700 }, Date { days: 19_800 });
    range.handle_input(Key::Up);
    assert!(!range.is_any_selected());
}

#[test]
fn the_selection_walks_across_both_dates() {
    let mut range = DateRangeInputWidget::new(Date { days: 19_700 }, Date { days: 19_800 });
    let mut seen = vec![];
    for _ in 0..7 {
        range.handle_input(Key::Right);
        seen.push((range.from_input().state.selection, range.to_input().state.selection));
    }
    assert_eq!(
        seen,
        vec![
            (Selection::Day, Selection::Nothing),
            (Selection::Month, Selection::Nothing),
            (Selection::Year, Selection::Nothing),
            (Selection::Nothing, Selection::Day),
            (Selection::Nothing, Selection::Month),
            (Selection::Nothing, Selection::Year),
            (Selection::Nothing, Selection::Nothing),
        ]
    );
    let mut seen = vec![];
    for _ in 0..7 {
        range.handle_input(Key::Left);
        seen.push((range.from_input().state.selection, range.to_input().state.selection));
    }
    assert_eq!(
        seen,
        vec![
            (Selection::Nothing, Selection::Year),
            (Selection::Nothing, Selection::Month),
            (Selection::Nothing, Selection::Day),
            (Selection::Year, Selection::Nothing),
            (Selection::Month, Selection::Nothing),
            (Selection::Day, Selection::Nothing),
            (Selection::Nothing, Selection::Nothing),
        ]
    );
}

#[test]
fn each_date_limits_the_other() {
    let mut range = DateRangeInputWidget::new(Date { days: 19_700 }, Date { days: 19_710 });
    range.handle_input(Key::Right);
    range.handle_input(Key::Up);
    assert_eq!(range.from_input().state.date, Date { days: 19_701 });
    assert_eq!(range.to_input().min, Some(Date { days: 19_701 }));
    for _ in 0..20 {
        range.handle_input(Key::Up);
    }
    assert_eq!(range.from_input().state.date, Date { days: 19_710 });
    assert_eq!(range.to_input().min, Some(Date { days: 19_710 }));
    for _ in 0..3 {
        range.handle_input(Key::Right);
    }
    assert_eq!(range.to_input().state.selection, Selection::Day);
    range.handle_input(Key::Down);
    assert_eq!(range.to_input().state.date, Date { days: 19_710 });
    assert_eq!(range.from_input().max, Some(Date { days: 19_710 }));
    assert_eq!(range.get_time_period(), (19_710 * 86_400, 19_710 * 86_400 + 86_399));
}
