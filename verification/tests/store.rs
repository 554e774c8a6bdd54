use app_time::date::Date;
use app_time::db::{Db, Interval, StoreError};
use app_time::tracker::StoreOp;

fn row(name: &str, from: u32, to: u32) -> Interval {
    Interval { window_name: name.to_string(), time_from: from, time_to: to }
}

#[test]
fn a_new_store_is_empty() {
    assert!(Db::init().rows().is_empty());
}

#[test]
fn insert_appends_a_zero_length_interval() {
    let mut db = Db::init();
    assert_eq!(db.insert(&"Editor".to_string(), 1000), Ok(()));
    assert_eq!(db.rows(), &vec![row("Editor", 1000, 1000)]);
}

#[test]
fn update_last_moves_the_end_of_the_latest_interval() {
    let mut db = Db::init();
    db.insert(&"Editor".to_string(), 1000).unwrap();
    db.insert(&"Editor".to_string(), 2000).unwrap();
    assert_eq!(db.update_last(&"Editor".to_string(), 2500), Ok(()));
    assert_eq!(db.rows(), &vec![row("Editor", 1000, 1000), row("Editor", 2000, 2500)]);
}

#[test]
fn update_last_picks_the_latest_start_not_the_last_row() {
    let mut db = Db::init();
    db.insert(&"Editor".to_string(), 2000).unwrap();
    db.insert(&"Editor".to_string(), 1000).unwrap();
    db.update_last(&"Editor".to_string(), 2500).unwrap();
    assert_eq!(db.rows(), &vec![row("Editor", 2000, 2500), row("Editor", 1000, 1000)]);
}

#[test]
fn update_last_breaks_ties_by_the_row_appended_last() {
    let mut db = Db::init();
    db.insert(&"Editor".to_string(), 1000).unwrap();
    db.insert(&"Editor".to_string(), 1000).unwrap();
    db.update_last(&"Editor".to_string(), 1500).unwrap();
    assert_eq!(db.rows(), &vec![row("Editor", 1000, 1000), row("Editor", 1000, 1500)]);
}

#[test]
fn update_last_leaves_other_applications_alone() {
    let mut db = Db::init();
    db.insert(&"Editor".to_string(), 1000).unwrap();
    db.insert(&"Browser".to_string(), 1100).unwrap();
    db.update_last(&"Editor".to_string(), 1100).unwrap();
    assert_eq!(db.rows(), &vec![row("Editor", 1000, 1100), row("Browser", 1100, 1100)]);
}

#[test]
fn update_last_without_an_interval_changes_nothing() {
    let mut db = Db::init();
    db.insert(&"Editor".to_string(), 1000).unwrap();
    assert_eq!(db.update_last(&"Browser".to_string(), 1100), Ok(()));
    assert_eq!(db.rows(), &vec![row("Editor", 1000, 1000)]);
}

#[test]
fn update_last_refuses_an_end_before_the_start() {
    let mut db = Db::init();
    db.insert(&"Editor".to_string(), 1000).unwrap();
    assert_eq!(db.update_last(&"Editor".to_string(), 999), Err(StoreError::EndBeforeStart));
    assert_eq!(db.rows(), &vec![row("Editor", 1000, 1000)]);
}

#[test]
fn update_last_may_shorten_an_interval() {
    let mut db = Db::init();
    db.insert(&"Editor".to_string(), 1000).unwrap();
    db.update_last(&"Editor".to_string(), 2000).unwrap();
    assert_eq!(db.update_last(&"Editor".to_string(), 1000), Ok(()));
    assert_eq!(db.rows(), &vec![row("Editor", 1000, 1000)]);
}

#[test]
fn the_empty_name_is_never_stored() {
    let mut db = Db::init();
    assert_eq!(db.insert(&String::new(), 5), Err(StoreError::EmptyEntity));
    assert_eq!(db.update_last(&String::new(), 5), Err(StoreError::EmptyEntity));
    assert!(db.rows().is_empty());
}

#[test]
fn apply_carries_out_each_kind_of_operation() {
    let mut db = Db::init();
    let insert = StoreOp::Insert { window_name: "Editor".to_string(), time_from: 10 };
    let update = StoreOp::UpdateLast { window_name: "Editor".to_string(), time_to: 20 };
    assert_eq!(db.apply(&insert), Ok(()));
    assert_eq!(db.apply(&update), Ok(()));
    assert_eq!(db.rows(), &vec![row("Editor", 10, 20)]);
    let early = StoreOp::UpdateLast { window_name: "Editor".to_string(), time_to: 5 };
    assert_eq!(db.apply(&early), Err(StoreError::EndBeforeStart));
    let nameless = StoreOp::Insert { window_name: String::new(), time_from: 10 };
    assert_eq!(db.apply(&nameless), Err(StoreError::EmptyEntity));
    assert_eq!(db.rows(), &vec![row("Editor", 10, 20)]);
}

#[test]
fn load_keeps_the_rows_in_order() {
    let rows = vec![row("A", 100, 200), row("B", 200, 250), row("A", 250, 300)];
    let db = Db::load(rows.clone()).unwrap();
    assert_eq!(db.rows(), &rows);
}

#[test]
fn load_reports_the_first_fault() {
    let nameless = vec![row("A", 1, 2), row("", 3, 4), row("B", 9, 8)];
    assert_eq!(Db::load(nameless).err(), Some(StoreError::EmptyEntity));
    let backwards = vec![row("A", 1, 2), row("B", 9, 8), row("", 3, 4)];
    assert_eq!(Db::load(backwards).err(), Some(StoreError::EndBeforeStart));
}

#[test]
fn min_start_timestamp_is_the_earliest_start() {
    let db = Db::load(vec![row("A", 300, 400), row("B", 100, 150), row("A", 200, 250)]).unwrap();
    assert_eq!(db.min_start_timestamp(9999), 100);
    assert_eq!(db.min_start_timestamp(5), 100);
}

#[test]
fn min_start_timestamp_of_an_empty_store_is_now() {
    assert_eq!(Db::init().min_start_timestamp(1234), 1234);
}

#[test]
fn min_date_is_the_utc_day_of_the_earliest_start() {
    let today = Date { days: 20_000 };
    let db = Db::load(vec![row("A", 1_706_745_599, 1_706_745_600), row("B", 1_706_745_600, 1_706_745_700)])
        .unwrap();
    assert_eq!(db.get_min_date(today), Date { days: 19_753 });
    let later = Db::load(vec![row("B", 1_706_745_600, 1_706_745_700)]).unwrap();
    assert_eq!(later.get_min_date(today), Date { days: 19_754 });
}

#[test]
fn min_date_of_an_empty_store_is_today() {
    assert_eq!(Db::init().get_min_date(Date { days: 20_000 }), Date { days: 20_000 });
}

#[test]
fn apply_all_passes_over_what_is_refused() {
    let mut db = Db::init();
    let ops = vec![
        StoreOp::Insert { window_name: "Editor".to_string(), time_from: 10 },
        StoreOp::UpdateLast { window_name: "Editor".to_string(), time_to: 5 },
        StoreOp::UpdateLast { window_name: "Editor".to_string(), time_to: 20 },
    ];
    assert!(!db.apply_all(&ops));
    assert_eq!(db.rows(), &vec![row("Editor", 10, 20)]);
    assert!(db.apply_all(&vec![StoreOp::UpdateLast { window_name: "Editor".to_string(), time_to: 30 }]));
    assert!(db.apply_all(&vec![]));
    assert_eq!(db.rows(), &vec![row("Editor", 10, 30)]);
}
