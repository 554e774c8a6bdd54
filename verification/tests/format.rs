use app_time::date_input_widget::Selection;
use app_time::period::StatsPeriod;
use app_time::ui::WindowStatRow;

#[test]
fn seconds_alone() {
    assert_eq!(WindowStatRow::format_time(0), "0s");
    assert_eq!(WindowStatRow::format_time(7), "7s");
    assert_eq!(WindowStatRow::format_time(59), "59s");
}

#[test]
fn minutes_and_seconds() {
    assert_eq!(WindowStatRow::format_time(60), "1m 0s");
    assert_eq!(WindowStatRow::format_time(185), "3m 5s");
    assert_eq!(WindowStatRow::format_time(3599), "59m 59s");
}

#[test]
fn hours_minutes_and_seconds() {
    assert_eq!(WindowStatRow::format_time(3600), "1h 0m 0s");
    assert_eq!(WindowStatRow::format_time(7209), "2h 0m 9s");
    assert_eq!(WindowStatRow::format_time(86_399), "23h 59m 59s");
}

#[test]
fn days_hours_minutes_and_seconds() {
    assert_eq!(WindowStatRow::format_time(86_400), "1d 0h 0m 0s");
    assert_eq!(WindowStatRow::format_time(90_061), "1d 1h 1m 1s");
    assert_eq!(WindowStatRow::format_time(4_294_967_295), "49710d 6h 28m 15s");
}

#[test]
fn every_digit_is_written() {
    assert_eq!(WindowStatRow::format_time(1_234_567_890), "14288d 23h 31m 30s");
    assert_eq!(WindowStatRow::format_time(45), "45s");
    assert_eq!(WindowStatRow::format_time(2806), "46m 46s");
    assert_eq!(WindowStatRow::format_time(28_679), "7h 57m 59s");
}

#[test]
fn period_titles() {
    assert_eq!(StatsPeriod::Total.as_title(), "Total");
    assert_eq!(StatsPeriod::Today.as_title(), "Today");
    assert_eq!(StatsPeriod::Yesterday.as_title(), "Yesterday");
    assert_eq!(StatsPeriod::Last3Days.as_title(), "Last 3 days");
    assert_eq!(StatsPeriod::ThisWeek.as_title(), "This week");
    assert_eq!(StatsPeriod::LastWeek.as_title(), "Last week");
    assert_eq!(StatsPeriod::Custom.as_title(), "Custom");
}

#[test]
fn date_part_formats() {
    assert_eq!(Selection::Day.as_date_part(), "%d");
    assert_eq!(Selection::Month.as_date_part(), "%m");
    assert_eq!(Selection::Year.as_date_part(), "%Y");
}
