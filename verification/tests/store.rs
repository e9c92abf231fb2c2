use tmux_notify::db::{Database, OpenError};
use tmux_notify::models::Notification;

fn note(pane: &str, title: &str, message: &str, state: &str, created_at: i64) -> Notification {
    Notification {
        pane: pane.to_string(),
        title: title.to_string(),
        message: message.to_string(),
        state: state.to_string(),
        created_at,
    }
}

fn panes(rows: &[Notification]) -> Vec<String> {
    rows.iter().map(|n| n.pane.clone()).collect()
}

fn find(db: &Database, pane: &str) -> Option<Notification> {
    db.query().into_iter().find(|n| n.pane == pane)
}

#[test]
fn new_store_is_empty() {
    let db = Database::new();
    assert!(db.query().is_empty());
    assert!(db.rows().is_empty());
    assert_eq!(db.count_unread(), 0);
    assert!(db.unread_panes().is_empty());
}

#[test]
fn add_to_an_empty_store_creates_an_unread_record() {
    let mut db = Database::new();
    db.add("%1", "t", "m", 100);
    let rows = db.query();
    assert_eq!(rows.len(), 1);
    assert_eq!(rows[0].pane, "%1");
    assert_eq!(rows[0].title, "t");
    assert_eq!(rows[0].message, "m");
    assert_eq!(rows[0].state, "unread");
    assert_eq!(rows[0].created_at, 100);
}

#[test]
fn repeated_content_keeps_the_read_state() {
    let mut db = Database::new();
    db.add("%1", "t", "m", 100);
    assert_eq!(db.mark_read("%1"), 1);
    db.add("%1", "t", "m", 200);
    let row = find(&db, "%1").unwrap();
    assert_eq!(row.state, "read");
    assert_eq!(row.created_at, 100);
    assert_eq!(db.count_unread(), 0);
}

#[test]
fn repeated_content_keeps_an_unread_record_as_it_is() {
    let mut db = Database::new();
    db.add("%1", "t", "m", 100);
    db.add("%1", "t", "m", 200);
    let row = find(&db, "%1").unwrap();
    assert_eq!(row.state, "unread");
    assert_eq!(row.created_at, 100);
}

#[test]
fn changed_title_resets_the_read_state() {
    let mut db = Database::new();
    db.add("%1", "t", "m", 100);
    db.mark_read("%1");
    db.add("%1", "t2", "m", 200);
    let row = find(&db, "%1").unwrap();
    assert_eq!(row.state, "unread");
    assert_eq!(row.title, "t2");
    assert_eq!(row.message, "m");
    assert_eq!(row.created_at, 200);
}

#[test]
fn changed_message_resets_the_read_state() {
    let mut db = Database::new();
    db.add("%1", "t", "m", 100);
    db.mark_read("%1");
    db.add("%1", "t", "m2", 300);
    let row = find(&db, "%1").unwrap();
    assert_eq!(row.state, "unread");
    assert_eq!(row.message, "m2");
    assert_eq!(row.created_at, 300);
}

#[test]
fn many_adds_for_one_pane_leave_one_record() {
    let mut db = Database::new();
    db.add("%1", "a", "b", 1);
    db.add("%1", "a", "b", 2);
    db.add("%1", "c", "d", 3);
    db.add("%2", "x", "y", 4);
    db.add("%1", "e", "f", 5);
    let rows = db.query();
    assert_eq!(rows.iter().filter(|n| n.pane == "%1").count(), 1);
    assert_eq!(rows.len(), 2);
}

#[test]
fn cleanup_deletes_what_is_one_second_too_old() {
    let now = 1_000_000;
    let hours = 24;
    let mut db = Database::open(vec![
        note("old", "t", "m", "unread", now - hours * 3600 - 1),
        note("edge", "t", "m", "unread", now - hours * 3600),
        note("young", "t", "m", "read", now - hours * 3600 + 1),
    ])
    .unwrap();
    assert_eq!(db.cleanup(hours, now), 1);
    assert_eq!(panes(&db.rows()), vec!["edge", "young"]);
}

#[test]
fn cleanup_of_nothing_deletes_nothing() {
    let mut db = Database::new();
    assert_eq!(db.cleanup(24, 1_000), 0);
    db.add("%1", "t", "m", 1_000);
    assert_eq!(db.cleanup(24, 1_000), 0);
    assert_eq!(db.rows().len(), 1);
}

#[test]
fn cleanup_with_no_retention_keeps_only_what_is_not_older_than_now() {
    let mut db = Database::open(vec![
        note("a", "t", "m", "unread", 99),
        note("b", "t", "m", "unread", 100),
        note("c", "t", "m", "unread", 101),
    ])
    .unwrap();
    assert_eq!(db.cleanup(0, 100), 1);
    assert_eq!(panes(&db.rows()), vec!["b", "c"]);
}

#[test]
fn cleanup_with_negative_retention_reaches_into_the_future() {
    let mut db = Database::open(vec![
        note("a", "t", "m", "unread", 100),
        note("b", "t", "m", "unread", 3700),
        note("c", "t", "m", "unread", 3699),
    ])
    .unwrap();
    assert_eq!(db.cleanup(-1, 100), 2);
    assert_eq!(panes(&db.rows()), vec!["b"]);
}

#[test]
fn cleanup_does_not_overflow_at_the_ends_of_the_range() {
    let mut db = Database::open(vec![
        note("a", "t", "m", "unread", i64::MIN),
        note("b", "t", "m", "unread", i64::MAX),
    ])
    .unwrap();
    assert_eq!(db.cleanup(i64::MAX, i64::MIN), 0);
    assert_eq!(db.cleanup(i64::MIN, i64::MAX), 2);
    assert!(db.rows().is_empty());
}

#[test]
fn prune_keeps_the_valid_panes() {
    let mut db = Database::new();
    db.add("A", "t", "m", 1);
    db.add("B", "t", "m", 2);
    db.add("C", "t", "m", 3);
    let deleted = db.prune(&["A".to_string(), "C".to_string()]);
    assert_eq!(deleted, 1);
    assert_eq!(panes(&db.rows()), vec!["A", "C"]);
}

#[test]
fn prune_with_an_empty_list_deletes_everything() {
    let mut db = Database::new();
    db.add("A", "t", "m", 1);
    db.add("B", "t", "m", 2);
    assert_eq!(db.prune(&[]), 2);
    assert!(db.rows().is_empty());
}

#[test]
fn prune_ignores_listed_panes_without_a_record() {
    let mut db = Database::new();
    db.add("A", "t", "m", 1);
    assert_eq!(db.prune(&["Z".to_string(), "A".to_string(), "A".to_string()]), 0);
    assert_eq!(panes(&db.rows()), vec!["A"]);
}

#[test]
fn mark_read_of_a_missing_pane_touches_nothing() {
    let mut db = Database::new();
    db.add("A", "t", "m", 1);
    assert_eq!(db.mark_read("B"), 0);
    assert_eq!(find(&db, "A").unwrap().state, "unread");
    assert_eq!(db.rows().len(), 1);
}

#[test]
fn dismiss_of_a_missing_pane_touches_nothing() {
    let mut db = Database::new();
    db.add("A", "t", "m", 1);
    assert_eq!(db.dismiss("B"), 0);
    assert_eq!(panes(&db.rows()), vec!["A"]);
}

#[test]
fn mark_read_sets_the_state_and_nothing_else() {
    let mut db = Database::new();
    db.add("A", "ta", "ma", 1);
    db.add("B", "tb", "mb", 2);
    assert_eq!(db.mark_read("A"), 1);
    let a = find(&db, "A").unwrap();
    assert_eq!(a.state, "read");
    assert_eq!(a.title, "ta");
    assert_eq!(a.message, "ma");
    assert_eq!(a.created_at, 1);
    assert_eq!(find(&db, "B").unwrap().state, "unread");
    assert_eq!(db.mark_read("A"), 1);
    assert_eq!(find(&db, "A").unwrap().state, "read");
}

#[test]
fn dismiss_deletes_the_record() {
    let mut db = Database::new();
    db.add("A", "t", "m", 1);
    db.add("B", "t", "m", 2);
    assert_eq!(db.dismiss("A"), 1);
    assert_eq!(panes(&db.rows()), vec!["B"]);
    assert_eq!(db.dismiss("A"), 0);
}

#[test]
fn query_lists_a_changed_pane_first() {
    let mut db = Database::new();
    db.add("A", "t", "m", 1);
    db.add("B", "t", "m", 2);
    db.add("A", "t2", "m", 3);
    let rows = db.query();
    assert_eq!(panes(&rows), vec!["A", "B"]);
    assert_eq!(rows[0].created_at, 3);
    assert_eq!(rows[1].created_at, 2);
}

#[test]
fn query_keeps_the_order_of_an_unchanged_pane() {
    let mut db = Database::new();
    db.add("A", "t", "m", 1);
    db.add("B", "t", "m", 2);
    db.add("A", "t", "m", 3);
    assert_eq!(panes(&db.query()), vec!["B", "A"]);
}

#[test]
fn query_is_newest_first_and_keeps_ties_in_the_order_of_the_store() {
    let db = Database::open(vec![
        note("a", "t", "m", "unread", 5),
        note("b", "t", "m", "read", 9),
        note("c", "t", "m", "unread", 5),
        note("d", "t", "m", "unread", 7),
        note("e", "t", "m", "unread", 9),
    ])
    .unwrap();
    assert_eq!(panes(&db.query()), vec!["b", "e", "d", "a", "c"]);
    assert_eq!(panes(&db.rows()), vec!["a", "b", "c", "d", "e"]);
}

#[test]
fn count_unread_counts_the_unread_records() {
    let mut db = Database::new();
    db.add("A", "t", "m", 1);
    db.add("B", "t", "m", 2);
    db.add("C", "t", "m", 3);
    assert_eq!(db.count_unread(), 3);
    db.mark_read("B");
    assert_eq!(db.count_unread(), 2);
    assert_eq!(db.unread_panes(), vec!["A", "C"]);
}

#[test]
fn open_keeps_the_rows() {
    let rows = vec![note("%1", "a", "b", "read", 5), note("%2", "c", "d", "unread", 4)];
    let db = Database::open(rows).unwrap();
    assert_eq!(db.count_unread(), 1);
    let rows = db.rows();
    assert_eq!(rows.len(), 2);
    assert_eq!(rows[0].pane, "%1");
    assert_eq!(rows[0].state, "read");
    assert_eq!(rows[1].pane, "%2");
    assert_eq!(rows[1].title, "c");
    assert_eq!(rows[1].message, "d");
    assert_eq!(rows[1].created_at, 4);
}

#[test]
fn open_refuses_an_unknown_state() {
    let opened = Database::open(vec![note("%1", "a", "b", "seen", 5)]);
    assert!(matches!(opened, Err(OpenError::UnknownState)));
    assert_eq!(OpenError::UnknownState.message(), "store holds a notification of unknown state");
    assert_eq!(OpenError::DuplicatePane.message(), "store holds two notifications for one pane");
}

#[test]
fn open_refuses_two_rows_for_one_pane() {
    let opened =
        Database::open(vec![note("%1", "a", "b", "read", 5), note("%1", "c", "d", "unread", 6)]);
    assert!(matches!(opened, Err(OpenError::DuplicatePane)));
}

#[test]
fn open_reports_an_unknown_state_before_a_duplicate() {
    let opened = Database::open(vec![
        note("%1", "a", "b", "read", 5),
        note("%1", "c", "d", "unread", 6),
        note("%2", "c", "d", "", 6),
    ]);
    assert!(matches!(opened, Err(OpenError::UnknownState)));
}

#[test]
fn duplicate_is_a_copy() {
    let n = note("%1", "a", "b", "read", 5);
    let copy = n.duplicate();
    assert_eq!(copy.pane, "%1");
    assert_eq!(copy.title, "a");
    assert_eq!(copy.message, "b");
    assert_eq!(copy.state, "read");
    assert_eq!(copy.created_at, 5);
    assert!(!copy.is_unread());
    assert!(note("%1", "a", "b", "unread", 5).is_unread());
}
