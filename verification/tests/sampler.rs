use app_time::datetime::LocalDateTime;
use app_time::db::{Db, Interval, StoreError, WindowStat};
use app_time::tracker::{StoreOp, Tracker};

const OFFSET: i32 = -18_000;
const SESSION_START: i64 = 1_710_133_190;
const FIRST_MIDNIGHT: u32 = 1_710_133_200;
const SECOND_MIDNIGHT: u32 = 1_710_219_600;
const SESSION_END: i64 = 1_710_226_800;

fn at(timestamp: i64) -> LocalDateTime {
    LocalDateTime { timestamp, offset: OFFSET }
}

fn row(name: &str, from: u32, to: u32) -> Interval {
    Interval { window_name: name.to_string(), time_from: from, time_to: to }
}

fn insert(name: &str, time_from: u32) -> StoreOp {
    StoreOp::Insert { window_name: name.to_string(), time_from }
}

fn update(name: &str, time_to: u32) -> StoreOp {
    StoreOp::UpdateLast { window_name: name.to_string(), time_to }
}

fn sample(tracker: &mut Tracker, db: &mut Db, name: &str, timestamp: i64) -> Vec<Result<(), StoreError>> {
    let ops = tracker.tick(&name.to_string(), at(timestamp));
    ops.iter().map(|op| db.apply(op)).collect()
}

fn lines(stats: Vec<WindowStat>) -> Vec<(String, u32)> {
    stats.into_iter().map(|s| (s.window_name, s.seconds)).collect()
}

#[test]
fn a_new_tracker_has_nothing_in_focus() {
    let tracker = Tracker::new(at(1000));
    assert_eq!(tracker.display_name(), "");
    assert_eq!(tracker.time_from(), at(1000));
}

#[test]
fn no_focus_before_and_after_does_nothing() {
    let mut tracker = Tracker::new(at(1000));
    assert_eq!(tracker.tick(&String::new(), at(1005)), vec![]);
    assert_eq!(tracker.display_name(), "");
    assert_eq!(tracker.time_from(), at(1000));
}

#[test]
fn focus_gained_opens_an_interval_at_the_sample() {
    let mut tracker = Tracker::new(at(1000));
    assert_eq!(tracker.tick(&"Editor".to_string(), at(1005)), vec![insert("Editor", 1005)]);
    assert_eq!(tracker.display_name(), "Editor");
    assert_eq!(tracker.time_from(), at(1005));
}

#[test]
fn focus_kept_extends_the_open_interval() {
    let mut tracker = Tracker::new(at(1000));
    tracker.tick(&"Editor".to_string(), at(1005));
    assert_eq!(tracker.tick(&"Editor".to_string(), at(1010)), vec![update("Editor", 1010)]);
    assert_eq!(tracker.display_name(), "Editor");
    assert_eq!(tracker.time_from(), at(1005));
}

#[test]
fn focus_lost_closes_the_interval_and_opens_none() {
    let mut tracker = Tracker::new(at(1000));
    tracker.tick(&"Editor".to_string(), at(1005));
    assert_eq!(tracker.tick(&String::new(), at(1010)), vec![update("Editor", 1010)]);
    assert_eq!(tracker.display_name(), "");
    assert_eq!(tracker.time_from(), at(1005));
}

#[test]
fn focus_moved_closes_one_interval_and_opens_the_next() {
    let mut tracker = Tracker::new(at(1000));
    tracker.tick(&"A".to_string(), at(1005));
    assert_eq!(
        tracker.tick(&"B".to_string(), at(1010)),
        vec![update("A", 1010), insert("B", 1010)]
    );
    assert_eq!(tracker.display_name(), "B");
    assert_eq!(tracker.time_from(), at(1010));
}

#[test]
fn transition_closes_prior_interval() {
    let mut tracker = Tracker::new(at(1000));
    let mut db = Db::init();
    sample(&mut tracker, &mut db, "A", 1005);
    sample(&mut tracker, &mut db, "A", 1010);
    let applied = sample(&mut tracker, &mut db, "B", 1015);
    assert_eq!(applied, vec![Ok(()), Ok(())]);
    assert_eq!(db.rows(), &vec![row("A", 1005, 1015), row("B", 1015, 1015)]);
}

#[test]
fn a_session_across_two_midnights_is_split_in_three() {
    let mut tracker = Tracker::new(at(SESSION_START - 5));
    let mut db = Db::init();
    sample(&mut tracker, &mut db, "Editor", SESSION_START);
    let ops = tracker.tick(&"Editor".to_string(), at(SESSION_END));
    assert_eq!(
        ops,
        vec![
            update("Editor", FIRST_MIDNIGHT),
            insert("Editor", FIRST_MIDNIGHT),
            update("Editor", SECOND_MIDNIGHT),
            insert("Editor", SECOND_MIDNIGHT),
            update("Editor", SESSION_END as u32),
        ]
    );
    for op in &ops {
        assert_eq!(db.apply(op), Ok(()));
    }
    assert_eq!(
        db.rows(),
        &vec![
            row("Editor", SESSION_START as u32, FIRST_MIDNIGHT),
            row("Editor", FIRST_MIDNIGHT, SECOND_MIDNIGHT),
            row("Editor", SECOND_MIDNIGHT, SESSION_END as u32),
        ]
    );
}

#[test]
fn a_split_and_a_transition_in_one_sample() {
    let mut tracker = Tracker::new(at(SESSION_START - 5));
    let mut db = Db::init();
    sample(&mut tracker, &mut db, "Editor", SESSION_START);
    let end = FIRST_MIDNIGHT + 3;
    let ops = tracker.tick(&"Browser".to_string(), at(end as i64));
    assert_eq!(
        ops,
        vec![
            update("Editor", FIRST_MIDNIGHT),
            insert("Editor", FIRST_MIDNIGHT),
            update("Editor", end),
            insert("Browser", end),
        ]
    );
    for op in &ops {
        assert_eq!(db.apply(op), Ok(()));
    }
    assert_eq!(
        db.rows(),
        &vec![
            row("Editor", SESSION_START as u32, FIRST_MIDNIGHT),
            row("Editor", FIRST_MIDNIGHT, end),
            row("Browser", end, end),
        ]
    );
    assert_eq!(tracker.time_from(), at(end as i64));
}

#[test]
fn a_sample_on_the_same_day_splits_nothing() {
    let mut tracker = Tracker::new(at(SESSION_START - 5));
    tracker.tick(&"Editor".to_string(), at(SESSION_START));
    assert_eq!(
        tracker.tick(&"Editor".to_string(), at(SESSION_START + 9)),
        vec![update("Editor", SESSION_START as u32 + 9)]
    );
}

#[test]
fn a_sample_at_midnight_itself_splits_there() {
    let mut tracker = Tracker::new(at(SESSION_START - 5));
    tracker.tick(&"Editor".to_string(), at(SESSION_START));
    assert_eq!(
        tracker.tick(&"Editor".to_string(), at(FIRST_MIDNIGHT as i64)),
        vec![
            update("Editor", FIRST_MIDNIGHT),
            insert("Editor", FIRST_MIDNIGHT),
            update("Editor", FIRST_MIDNIGHT),
        ]
    );
}

#[test]
fn samples_after_a_split_keep_totals_and_never_overlap() {
    let mut tracker = Tracker::new(at(SESSION_START - 5));
    let mut db = Db::init();
    sample(&mut tracker, &mut db, "Editor", SESSION_START);
    sample(&mut tracker, &mut db, "Editor", FIRST_MIDNIGHT as i64 + 5);
    sample(&mut tracker, &mut db, "Editor", FIRST_MIDNIGHT as i64 + 10);
    sample(&mut tracker, &mut db, "Browser", FIRST_MIDNIGHT as i64 + 15);
    let rows = db.rows();
    for (i, a) in rows.iter().enumerate() {
        assert!(a.time_from <= a.time_to);
        assert!(a.time_to <= a.time_from - (a.time_from + 86_400 - 18_000) % 86_400 + 86_400);
        for (j, b) in rows.iter().enumerate() {
            if i != j && a.time_from < a.time_to && b.time_from < b.time_to {
                assert!(a.time_to <= b.time_from || b.time_to <= a.time_from);
            }
        }
    }
    assert_eq!(lines(db.get_stats(None).unwrap()), vec![("Editor".to_string(), 25)]);
    assert_eq!(
        lines(db.get_stats(Some((FIRST_MIDNIGHT, FIRST_MIDNIGHT + 86_400))).unwrap()),
        vec![("Editor".to_string(), 15)]
    );
}

#[test]
fn a_clock_running_backwards_is_refused_by_the_store() {
    let mut tracker = Tracker::new(at(1000));
    let mut db = Db::init();
    sample(&mut tracker, &mut db, "Editor", 1005);
    assert_eq!(sample(&mut tracker, &mut db, "Editor", 1001), vec![Err(StoreError::EndBeforeStart)]);
    assert_eq!(db.rows(), &vec![row("Editor", 1005, 1005)]);
}

#[test]
fn the_open_interval_only_grows_while_focus_stays() {
    let mut tracker = Tracker::new(at(1000));
    let mut db = Db::init();
    let mut last_end = 0;
    for timestamp in [1005, 1005, 1010, 1015, 1500, 86_400 * 20_000] {
        sample(&mut tracker, &mut db, "Editor", timestamp);
        let end = db.rows().last().unwrap().time_to;
        assert_eq!(end as i64, timestamp);
        assert!(end >= last_end);
        last_end = end;
    }
}

#[test]
fn every_second_in_focus_is_counted_once() {
    let mut tracker = Tracker::new(at(SESSION_START - 5));
    let mut db = Db::init();
    let mut timestamp = SESSION_START;
    let names = ["Editor", "Editor", "Browser", "", "Editor", "Browser", "Browser", "Editor"];
    for step in 0..40 {
        sample(&mut tracker, &mut db, names[step % names.len()], timestamp);
        timestamp += 20_000;
    }
    let total: u32 = db.get_stats(None).unwrap().iter().map(|s| s.seconds).sum();
    let mut expected = 0;
    for step in 0..39 {
        if !names[step % names.len()].is_empty() {
            expected += 20_000;
        }
    }
    assert_eq!(total, expected);
}
