use tmux_notify::commands::{reset, run, Command, Reply, ResetReply};
use tmux_notify::db::Database;
use tmux_notify::models::{ErrorResponse, QueryResponse};

fn add_command(pane: &str, title: &str, message: &str, retention: i64) -> Command {
    Command::Add {
        title: title.to_string(),
        message: message.to_string(),
        pane: pane.to_string(),
        retention,
    }
}

fn listed(db: &mut Database) -> Vec<String> {
    match run(db, &Command::Query, 0) {
        Reply::Listing(response) => {
            assert!(response.ok);
            response.notifications.into_iter().map(|n| n.pane).collect()
        }
        other => panic!("{:?}", other),
    }
}

#[test]
fn add_merges_and_then_cleans_up() {
    let mut db = Database::new();
    assert!(matches!(run(&mut db, &add_command("old", "t", "m", 1), 0), Reply::Done));
    assert!(matches!(run(&mut db, &add_command("new", "t", "m", 1), 3601), Reply::Done));
    assert_eq!(listed(&mut db), vec!["new"]);
}

#[test]
fn add_with_negative_retention_deletes_what_it_added() {
    let mut db = Database::new();
    assert!(matches!(run(&mut db, &add_command("a", "t", "m", -1), 100), Reply::Done));
    assert!(listed(&mut db).is_empty());
}

#[test]
fn query_lists_newest_first() {
    let mut db = Database::new();
    run(&mut db, &add_command("a", "t", "m", 24), 10);
    run(&mut db, &add_command("b", "t", "m", 24), 20);
    assert_eq!(listed(&mut db), vec!["b", "a"]);
}

#[test]
fn count_names_the_unread_panes() {
    let mut db = Database::new();
    run(&mut db, &add_command("a", "t", "m", 24), 10);
    run(&mut db, &add_command("b", "t", "m", 24), 20);
    run(&mut db, &Command::MarkRead { pane: "a".to_string() }, 30);
    match run(&mut db, &Command::Count, 30) {
        Reply::UnreadPanes(panes) => assert_eq!(panes, vec!["b"]),
        other => panic!("{:?}", other),
    }
}

#[test]
fn mark_read_and_dismiss_of_a_missing_pane_are_done() {
    let mut db = Database::new();
    assert!(matches!(run(&mut db, &Command::MarkRead { pane: "a".to_string() }, 0), Reply::Done));
    assert!(matches!(run(&mut db, &Command::Dismiss { pane: "a".to_string() }, 0), Reply::Done));
    assert!(listed(&mut db).is_empty());
}

#[test]
fn dismiss_deletes_a_pane() {
    let mut db = Database::new();
    run(&mut db, &add_command("a", "t", "m", 24), 10);
    run(&mut db, &add_command("b", "t", "m", 24), 20);
    assert!(matches!(run(&mut db, &Command::Dismiss { pane: "b".to_string() }, 30), Reply::Done));
    assert_eq!(listed(&mut db), vec!["a"]);
}

#[test]
fn cleanup_says_how_many_it_deleted() {
    let mut db = Database::new();
    run(&mut db, &add_command("a", "t", "m", 24), 0);
    run(&mut db, &add_command("b", "t", "m", 24), 10);
    run(&mut db, &add_command("c", "t", "m", 24), 7200);
    assert!(matches!(run(&mut db, &Command::Cleanup { retention: 1 }, 7200), Reply::Deleted(2)));
    assert!(matches!(run(&mut db, &Command::Cleanup { retention: 1 }, 7200), Reply::Deleted(0)));
    assert_eq!(listed(&mut db), vec!["c"]);
}

#[test]
fn prune_reads_a_list_with_commas() {
    let mut db = Database::new();
    run(&mut db, &add_command("%1", "t", "m", 24), 1);
    run(&mut db, &add_command("%2", "t", "m", 24), 2);
    run(&mut db, &add_command("%3", "t", "m", 24), 3);
    let prune = Command::Prune { valid_panes: " %1, ,%3 ".to_string() };
    assert!(matches!(run(&mut db, &prune, 4), Reply::Pruned(1)));
    assert_eq!(listed(&mut db), vec!["%3", "%1"]);
}

#[test]
fn prune_with_an_empty_list_is_a_reset_of_the_rows() {
    let mut db = Database::new();
    run(&mut db, &add_command("%1", "t", "m", 24), 1);
    run(&mut db, &add_command("%2", "t", "m", 24), 2);
    let prune = Command::Prune { valid_panes: "".to_string() };
    assert!(matches!(run(&mut db, &prune, 4), Reply::Pruned(2)));
    assert!(listed(&mut db).is_empty());
}

#[test]
fn reset_removes_a_store_that_exists() {
    assert_eq!(reset(true), ResetReply::Removed);
}

#[test]
fn reset_twice_finds_nothing_the_second_time() {
    let mut exists = true;
    let first = reset(exists);
    if first == ResetReply::Removed {
        exists = false;
    }
    assert_eq!(first, ResetReply::Removed);
    assert_eq!(reset(exists), ResetReply::Missing);
    assert_eq!(reset(false), ResetReply::Missing);
}

#[test]
fn only_a_reset_needs_no_store() {
    assert!(!Command::Reset.needs_store());
    assert!(Command::Query.needs_store());
    assert!(Command::Count.needs_store());
    assert!(add_command("a", "t", "m", 1).needs_store());
    assert!(Command::Cleanup { retention: 1 }.needs_store());
    assert!(Command::Prune { valid_panes: String::new() }.needs_store());
    assert!(Command::MarkRead { pane: String::new() }.needs_store());
    assert!(Command::Dismiss { pane: String::new() }.needs_store());
}

#[test]
fn only_commands_that_change_the_store_are_written_back() {
    assert!(add_command("a", "t", "m", 1).writes());
    assert!(Command::MarkRead { pane: String::new() }.writes());
    assert!(Command::Dismiss { pane: String::new() }.writes());
    assert!(Command::Cleanup { retention: 1 }.writes());
    assert!(Command::Prune { valid_panes: String::new() }.writes());
    assert!(!Command::Query.writes());
    assert!(!Command::Count.writes());
    assert!(!Command::Reset.writes());
}

#[test]
fn responses_say_whether_all_went_well() {
    let listing = QueryResponse::new(vec![]);
    assert!(listing.ok);
    assert!(listing.notifications.is_empty());
    let failure = ErrorResponse::new("disk full".to_string());
    assert!(!failure.ok);
    assert_eq!(failure.error, "disk full");
}
