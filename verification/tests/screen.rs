use app_time::date::Date;
use app_time::date_input_widget::{Key, Selection};
use app_time::datetime::LocalDateTime;
use app_time::db::WindowStat;
use app_time::period::StatsPeriod;
use app_time::tray::{Events, Reaction};
use app_time::ui::UI;
use app_time::window::{get_display_name, named_by_title};

const WEDNESDAY: LocalDateTime = LocalDateTime { timestamp: 1_715_773_510, offset: 7200 };

fn screen() -> UI {
    UI::new(Date { days: 19_844 }, Date { days: 19_858 })
}

#[test]
fn periods_stand_for_ranges_of_timestamps() {
    assert_eq!(StatsPeriod::Total.as_time_period(WEDNESDAY), None);
    assert_eq!(StatsPeriod::Custom.as_time_period(WEDNESDAY), None);
    assert_eq!(StatsPeriod::Today.as_time_period(WEDNESDAY), Some((1_715_724_000, 1_715_773_510)));
    assert_eq!(StatsPeriod::Yesterday.as_time_period(WEDNESDAY), Some((1_715_637_600, 1_715_724_000)));
    assert_eq!(StatsPeriod::Last3Days.as_time_period(WEDNESDAY), Some((1_715_551_200, 1_715_773_510)));
    assert_eq!(StatsPeriod::ThisWeek.as_time_period(WEDNESDAY), Some((1_715_551_200, 1_715_773_510)));
    assert_eq!(StatsPeriod::LastWeek.as_time_period(WEDNESDAY), Some((1_714_946_400, 1_715_551_200)));
}

#[test]
fn the_screen_opens_on_the_first_tab() {
    let ui = screen();
    assert_eq!(ui.selected_tab, 0);
    assert!(!ui.is_custom());
    assert!(!ui.date_range_input.is_any_selected());
}

#[test]
fn tabs_in_order() {
    let periods: Vec<StatsPeriod> = (0..7).map(UI::period_at).collect();
    assert_eq!(
        periods,
        vec![
            StatsPeriod::Total,
            StatsPeriod::Today,
            StatsPeriod::Yesterday,
            StatsPeriod::Last3Days,
            StatsPeriod::ThisWeek,
            StatsPeriod::LastWeek,
            StatsPeriod::Custom,
        ]
    );
}

#[test]
fn titles_of_the_tabs() {
    let mut ui = screen();
    assert_eq!(
        ui.titles(),
        vec!["Total", "Today", "Yesterday", "Last 3 days", "This week", "Last week", "Custom"]
    );
    ui.handle_key(Key::Left);
    assert_eq!(
        ui.titles(),
        vec!["Total", "Today", "Yesterday", "Last 3 days", "This week", "Last week", ""]
    );
}

#[test]
fn right_walks_the_tabs_and_on_through_the_dates() {
    let mut ui = screen();
    let mut seen = vec![];
    for _ in 0..13 {
        ui.handle_key(Key::Right);
        seen.push((
            ui.selected_tab,
            ui.date_range_input.from_input().state.selection,
            ui.date_range_input.to_input().state.selection,
        ));
    }
    let none = Selection::Nothing;
    assert_eq!(
        seen,
        vec![
            (1, none, none),
            (2, none, none),
            (3, none, none),
            (4, none, none),
            (5, none, none),
            (6, Selection::Day, none),
            (6, Selection::Month, none),
            (6, Selection::Year, none),
            (6, none, Selection::Day),
            (6, none, Selection::Month),
            (6, none, Selection::Year),
            (0, none, none),
            (1, none, none),
        ]
    );
}

#[test]
fn left_walks_the_tabs_and_back_through_the_dates() {
    let mut ui = screen();
    let mut seen = vec![];
    for _ in 0..8 {
        ui.handle_key(Key::Left);
        seen.push((
            ui.selected_tab,
            ui.date_range_input.from_input().state.selection,
            ui.date_range_input.to_input().state.selection,
        ));
    }
    let none = Selection::Nothing;
    assert_eq!(
        seen,
        vec![
            (6, none, Selection::Year),
            (6, none, Selection::Month),
            (6, none, Selection::Day),
            (6, Selection::Year, none),
            (6, Selection::Month, none),
            (6, Selection::Day, none),
            (5, none, none),
            (4, none, none),
        ]
    );
}

#[test]
fn other_keys_leave_the_tab() {
    let mut ui = screen();
    ui.handle_key(Key::Up);
    ui.handle_key(Key::Other);
    assert_eq!(ui.selected_tab, 0);
    assert!(!ui.date_range_input.is_any_selected());
}

#[test]
fn up_and_down_on_the_custom_tab_step_the_dates() {
    let mut ui = screen();
    ui.handle_key(Key::Left);
    ui.handle_key(Key::Down);
    assert_eq!(ui.selected_tab, 6);
    assert_eq!(ui.date_range_input.to_input().state.date, Date { days: 19_844 });
    assert_eq!(ui.date_range_input.from_input().max, Some(Date { days: 19_844 }));
}

#[test]
fn the_period_reported_follows_the_tab() {
    let mut ui = screen();
    assert_eq!(ui.time_period(WEDNESDAY), None);
    ui.handle_key(Key::Right);
    assert_eq!(ui.time_period(WEDNESDAY), Some((1_715_724_000, 1_715_773_510)));
    for _ in 0..5 {
        ui.handle_key(Key::Right);
    }
    assert!(ui.is_custom());
    assert_eq!(ui.time_period(WEDNESDAY), Some((19_844 * 86_400, 19_858 * 86_400 + 86_399)));
}

#[test]
fn seconds_of_all_lines_together() {
    let stats = vec![
        WindowStat { window_name: "A".to_string(), seconds: 150 },
        WindowStat { window_name: "B".to_string(), seconds: 50 },
    ];
    assert_eq!(UI::total_seconds(&stats), 200);
    assert_eq!(UI::total_seconds(&vec![]), 0);
    let large = vec![
        WindowStat { window_name: "A".to_string(), seconds: 4_294_967_295 },
        WindowStat { window_name: "B".to_string(), seconds: 4_294_967_295 },
    ];
    assert_eq!(UI::total_seconds(&large), 8_589_934_590);
}

#[test]
fn reactions_to_the_tray() {
    assert_eq!(Events::RightClickTrayIcon.react(false), Reaction::ShowMenu);
    assert_eq!(Events::RightClickTrayIcon.react(true), Reaction::ShowMenu);
    assert_eq!(Events::DoubleClickTrayIcon.react(true), Reaction::OpenReport { close_first: true });
    assert_eq!(Events::Open.react(false), Reaction::OpenReport { close_first: false });
    assert_eq!(Events::Exit.react(true), Reaction::Quit { close_first: true });
    assert_eq!(Events::Exit.react(false), Reaction::Quit { close_first: false });
}

#[test]
fn windows_are_named_by_their_program() {
    assert_eq!(
        get_display_name(Some("code.exe".to_string()), Some("main.rs".to_string())),
        Some("code.exe".to_string())
    );
    assert_eq!(get_display_name(Some("code.exe".to_string()), None), Some("code.exe".to_string()));
    assert_eq!(get_display_name(None, Some("main.rs".to_string())), None);
}

#[test]
fn windows_of_the_application_host_are_named_by_their_title() {
    let host = "ApplicationFrameHost.exe".to_string();
    assert!(named_by_title(&host));
    assert!(!named_by_title(&"applicationframehost.exe".to_string()));
    assert_eq!(get_display_name(Some(host.clone()), Some("Calculator".to_string())), Some("Calculator".to_string()));
    assert_eq!(get_display_name(Some(host), None), None);
}
