use app_time::db::{Db, Interval, StoreError, WindowStat};

fn store(rows: &[(&str, u32, u32)]) -> Db {
    Db::load(
        rows.iter()
            .map(|(name, from, to)| Interval {
                window_name: name.to_string(),
                time_from: *from,
                time_to: *to,
            })
            .collect(),
    )
    .unwrap()
}

fn lines(stats: Vec<WindowStat>) -> Vec<(String, u32)> {
    stats.into_iter().map(|s| (s.window_name, s.seconds)).collect()
}

fn expect(lines: &[(&str, u32)]) -> Vec<(String, u32)> {
    lines.iter().map(|(name, seconds)| (name.to_string(), *seconds)).collect()
}

#[test]
fn single_interval_total() {
    let db = store(&[("Editor", 1000, 1300)]);
    assert_eq!(lines(db.get_stats(None).unwrap()), expect(&[("Editor", 300)]));
}

#[test]
fn totals_grouped_and_ordered_descending() {
    let db = store(&[("A", 100, 200), ("B", 200, 250), ("A", 250, 300)]);
    assert_eq!(lines(db.get_stats(None).unwrap()), expect(&[("A", 150), ("B", 50)]));
}

#[test]
fn larger_totals_come_first_whatever_the_log_order() {
    let db = store(&[("Small", 0, 10), ("Large", 10, 500), ("Middle", 500, 600)]);
    assert_eq!(
        lines(db.get_stats(None).unwrap()),
        expect(&[("Large", 490), ("Middle", 100), ("Small", 10)])
    );
}

#[test]
fn equal_totals_keep_the_order_of_first_appearance() {
    let db = store(&[("B", 0, 10), ("A", 10, 20), ("C", 20, 40), ("A", 40, 45), ("B", 45, 50)]);
    assert_eq!(lines(db.get_stats(None).unwrap()), expect(&[("C", 20), ("B", 15), ("A", 15)]));
}

#[test]
fn an_empty_store_has_an_empty_report() {
    assert_eq!(lines(Db::init().get_stats(None).unwrap()), expect(&[]));
    assert_eq!(lines(Db::init().get_stats(Some((0, 100))).unwrap()), expect(&[]));
}

#[test]
fn zero_length_intervals_are_left_out() {
    let db = store(&[("Idle", 100, 100), ("Editor", 100, 160), ("Idle", 160, 160)]);
    assert_eq!(lines(db.get_stats(None).unwrap()), expect(&[("Editor", 60)]));
}

#[test]
fn a_zero_length_interval_adds_nothing_to_a_total() {
    let db = store(&[("Editor", 100, 160), ("Editor", 160, 160)]);
    assert_eq!(lines(db.get_stats(None).unwrap()), expect(&[("Editor", 60)]));
}

#[test]
fn a_period_keeps_only_intervals_wholly_inside() {
    let db = store(&[("A", 100, 200), ("B", 200, 250), ("A", 250, 300), ("C", 300, 400)]);
    assert_eq!(
        lines(db.get_stats(Some((200, 300))).unwrap()),
        expect(&[("B", 50), ("A", 50)])
    );
    assert_eq!(lines(db.get_stats(Some((201, 300))).unwrap()), expect(&[("A", 50)]));
    assert_eq!(lines(db.get_stats(Some((200, 299))).unwrap()), expect(&[("B", 50)]));
    assert_eq!(lines(db.get_stats(Some((150, 260))).unwrap()), expect(&[("B", 50)]));
}

#[test]
fn a_period_with_nothing_inside_has_an_empty_report() {
    let db = store(&[("A", 100, 200)]);
    assert_eq!(lines(db.get_stats(Some((300, 400))).unwrap()), expect(&[]));
    assert_eq!(lines(db.get_stats(Some((400, 300))).unwrap()), expect(&[]));
}

#[test]
fn the_same_question_has_the_same_answer() {
    let db = store(&[("B", 0, 10), ("A", 10, 20), ("C", 20, 40), ("A", 40, 45), ("B", 45, 50)]);
    assert_eq!(db.get_stats(None), db.get_stats(None));
    assert_eq!(db.get_stats(Some((10, 45))), db.get_stats(Some((10, 45))));
}

#[test]
fn a_total_beyond_32_bits_is_an_error() {
    let db = store(&[("A", 0, 4_000_000_000), ("A", 0, 4_000_000_000), ("B", 5, 9)]);
    assert_eq!(db.get_stats(None), Err(StoreError::TotalOverflow));
    assert_eq!(lines(db.get_stats(Some((1, 10))).unwrap()), expect(&[("B", 4)]));
}

#[test]
fn a_total_of_exactly_32_bits_fits() {
    let db = store(&[("A", 0, 4_294_967_295)]);
    assert_eq!(lines(db.get_stats(None).unwrap()), expect(&[("A", 4_294_967_295)]));
    let over = store(&[("A", 0, 4_294_967_295), ("A", 0, 1)]);
    assert_eq!(over.get_stats(None), Err(StoreError::TotalOverflow));
}

#[test]
fn the_store_reports_what_the_aggregator_finds() {
    let db = store(&[("B", 0, 10), ("A", 10, 20), ("C", 20, 40), ("A", 40, 45), ("B", 45, 50)]);
    assert_eq!(app_time::report::aggregate(&db, None), db.get_stats(None));
    assert_eq!(app_time::report::aggregate(&db, Some((10, 45))), db.get_stats(Some((10, 45))));
    assert_eq!(
        lines(app_time::report::aggregate(&db, Some((10, 45))).unwrap()),
        expect(&[("C", 20), ("A", 15)])
    );
}
