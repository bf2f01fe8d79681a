use session_switcher::manager::SessionManager;
use session_switcher::text::decimal_text;
use session_switcher::types::{HostCommand, SessionAction, SessionInfo, SessionItem};
use std::time::Duration;

fn live(name: &str, is_current: bool) -> SessionInfo {
    SessionInfo {
        name: name.to_string(),
        is_current_session: is_current,
    }
}

fn dead(name: &str, secs: u64) -> (String, Duration) {
    (name.to_string(), Duration::from_secs(secs))
}

#[test]
fn snapshot_with_new_session_among_known_reports_change() {
    let mut m = SessionManager::new();
    m.update_sessions_stable(vec![live("a", false)]);
    let changed = m.update_sessions_stable(vec![live("a", false), live("b", false)]);
    assert!(changed);
    let names: Vec<&str> = m.sessions().iter().map(|s| s.name.as_str()).collect();
    assert_eq!(names, vec!["a", "b"]);
}

#[test]
fn repeated_snapshot_reports_no_change() {
    let mut m = SessionManager::new();
    assert!(m.update_sessions_stable(vec![live("a", true), live("b", false)]));
    assert!(!m.update_sessions_stable(vec![live("a", true), live("b", false)]));
    assert_eq!(m.sessions().len(), 2);
}

#[test]
fn case_change_in_snapshot_keeps_stored_name() {
    let mut m = SessionManager::new();
    m.update_sessions_stable(vec![live("Foo", false)]);
    let changed = m.update_sessions_stable(vec![live("foo", false)]);
    assert!(!changed);
    assert_eq!(m.sessions().len(), 1);
    assert_eq!(m.sessions()[0].name, "Foo");
}

#[test]
fn empty_snapshot_on_empty_engine_reports_nothing() {
    let mut m = SessionManager::new();
    assert!(!m.update_sessions_stable(vec![]));
    assert!(m.sessions().is_empty());
}

#[test]
fn only_missing_session_is_removed_at_threshold() {
    let mut m = SessionManager::new();
    m.update_sessions_stable(vec![live("stay", false), live("go", false)]);
    assert!(!m.update_sessions_stable(vec![live("stay", false)]));
    assert!(!m.update_sessions_stable(vec![live("stay", false)]));
    assert!(m.update_sessions_stable(vec![live("stay", false)]));
    let names: Vec<&str> = m.sessions().iter().map(|s| s.name.as_str()).collect();
    assert_eq!(names, vec!["stay"]);
}

#[test]
fn resurrectable_compares_name_sets() {
    let mut m = SessionManager::new();
    m.update_resurrectable_stable(vec![dead("A", 1), dead("a", 2)]);
    assert!(!m.update_resurrectable_stable(vec![dead("a", 3)]));
    assert!(!m.update_resurrectable_stable(vec![dead("A", 4), dead("a", 5)]));
    assert!(m.update_resurrectable_stable(vec![dead("a", 6), dead("b", 7)]));
    assert!(m.update_resurrectable_stable(vec![]));
}

#[test]
fn resurrectable_order_does_not_matter_and_durations_refresh() {
    let mut m = SessionManager::new();
    m.update_resurrectable_stable(vec![dead("x", 1), dead("y", 2)]);
    assert!(!m.update_resurrectable_stable(vec![dead("Y", 5), dead("x", 6)]));
    assert_eq!(m.resurrectable_sessions()[0].0, "Y");
    assert_eq!(m.resurrectable_sessions()[0].1, Duration::from_secs(5));
}

#[test]
fn execute_switch_passes_name_through() {
    let m = SessionManager::new();
    let c = m.execute_action(SessionAction::Switch("work".to_string()));
    assert_eq!(c, HostCommand::Switch("work".to_string()));
}

#[test]
fn execute_kill_dispatches_by_category() {
    let mut m = SessionManager::new();
    m.update_sessions_stable(vec![live("alive", false)]);
    m.update_resurrectable_stable(vec![dead("Ghost", 60)]);
    assert_eq!(
        m.execute_action(SessionAction::Kill("alive".to_string())),
        HostCommand::KillLive("alive".to_string())
    );
    assert_eq!(
        m.execute_action(SessionAction::Kill("ghost".to_string())),
        HostCommand::DeleteDead("ghost".to_string())
    );
}

#[test]
fn confirm_deletion_removes_everywhere_and_returns_command() {
    let mut m = SessionManager::new();
    m.update_sessions_stable(vec![live("x", false), live("y", false)]);
    m.update_sessions_stable(vec![live("y", false)]);
    m.update_resurrectable_stable(vec![dead("X", 10)]);
    m.start_deletion("x".to_string());
    assert_eq!(m.pending_deletion(), Some("x"));
    let c = m.confirm_deletion();
    assert_eq!(c, Some(HostCommand::DeleteDead("x".to_string())));
    assert_eq!(m.pending_deletion(), None);
    let names: Vec<&str> = m.sessions().iter().map(|s| s.name.as_str()).collect();
    assert_eq!(names, vec!["y"]);
    assert!(m.resurrectable_sessions().is_empty());
    // "x" reappears: with its count cleared it is a new session again.
    assert!(m.update_sessions_stable(vec![live("x", false), live("y", false)]));
}

#[test]
fn confirm_live_deletion_kills_live_session() {
    let mut m = SessionManager::new();
    m.update_sessions_stable(vec![live("x", false)]);
    m.start_deletion("x".to_string());
    assert_eq!(m.confirm_deletion(), Some(HostCommand::KillLive("x".to_string())));
    assert!(m.sessions().is_empty());
}

#[test]
fn confirm_without_pending_does_nothing() {
    let mut m = SessionManager::new();
    m.update_sessions_stable(vec![live("x", false)]);
    assert_eq!(m.confirm_deletion(), None);
    assert_eq!(m.sessions().len(), 1);
}

#[test]
fn start_deletion_replaces_and_cancel_clears() {
    let mut m = SessionManager::new();
    m.start_deletion("a".to_string());
    m.start_deletion("b".to_string());
    assert_eq!(m.pending_deletion(), Some("b"));
    m.cancel_deletion();
    assert_eq!(m.pending_deletion(), None);
}

#[test]
fn rename_is_case_insensitive_and_keeps_flag() {
    let mut m = SessionManager::new();
    m.update_sessions_stable(vec![live("Main", true)]);
    m.rename_session_in_local_state("main", "renamed");
    assert_eq!(m.sessions()[0].name, "renamed");
    assert!(m.sessions()[0].is_current_session);
}

#[test]
fn rename_clears_missing_count_of_old_name() {
    let mut m = SessionManager::new();
    m.update_sessions_stable(vec![live("a", false)]);
    m.update_sessions_stable(vec![]);
    m.update_sessions_stable(vec![]);
    m.rename_session_in_local_state("a", "b");
    assert!(!m.update_sessions_stable(vec![]));
    assert_eq!(m.sessions().len(), 1);
}

#[test]
fn rename_without_timestamp_clears_new_name_rank() {
    let mut m = SessionManager::new();
    m.set_mru_timestamps(vec![("b".to_string(), 7), ("c".to_string(), 3)]);
    m.rename_session_in_local_state("a", "b");
    assert_eq!(m.get_mru_rank("b"), 0);
    assert_eq!(m.get_mru_rank("a"), 0);
    assert_eq!(m.get_mru_rank("c"), 3);
}

#[test]
fn shared_identity_counts_a_miss_per_record() {
    let mut m = SessionManager::new();
    m.update_sessions_stable(vec![live("a", false), live("x", false)]);
    m.rename_session_in_local_state("x", "A");
    m.update_sessions_stable(vec![live("a", false)]);
    assert_eq!(m.sessions().len(), 2);
    assert!(!m.update_sessions_stable(vec![]));
    assert_eq!(m.sessions().len(), 2);
    assert!(m.update_sessions_stable(vec![]));
    assert!(m.sessions().is_empty());
}

#[test]
fn mru_table_replaced_and_later_entry_wins() {
    let mut m = SessionManager::new();
    m.record_switch("old");
    m.set_mru_timestamps(vec![
        ("a".to_string(), 5),
        ("b".to_string(), 9),
        ("a".to_string(), 11),
    ]);
    assert_eq!(m.get_mru_rank("a"), 11);
    assert_eq!(m.get_mru_rank("b"), 9);
    assert_eq!(m.get_mru_rank("old"), 0);
    assert_eq!(m.get_mru_rank("A"), 0);
    assert_eq!(m.mru_timestamps().len(), 2);
}

#[test]
fn record_switch_returns_stored_stamp() {
    let mut m = SessionManager::new();
    let t = m.record_switch("s");
    assert!(t > 0);
    assert_eq!(m.get_mru_rank("s"), t);
}

#[test]
fn unique_name_unused_base() {
    let m = SessionManager::new();
    assert_eq!(m.generate_incremented_name("work", "."), "work");
}

#[test]
fn unique_name_first_free_number() {
    let mut m = SessionManager::new();
    m.update_sessions_stable(vec![live("work", false)]);
    assert_eq!(m.generate_incremented_name("work", "."), "work.2");
    m.update_sessions_stable(vec![live("work", false), live("work.2", false)]);
    assert_eq!(m.generate_incremented_name("work", "."), "work.3");
}

#[test]
fn unique_name_base_only_resurrectable() {
    let mut m = SessionManager::new();
    m.update_resurrectable_stable(vec![dead("work", 1), dead("work.2", 1)]);
    assert_eq!(m.generate_incremented_name("work", "."), "work.2");
}

#[test]
fn unique_name_is_case_sensitive() {
    let mut m = SessionManager::new();
    m.update_sessions_stable(vec![live("Work", false)]);
    assert_eq!(m.generate_incremented_name("work", "-"), "work");
}

#[test]
fn unique_name_random_fallback() {
    let mut m = SessionManager::new();
    let mut all = vec![live("work", false)];
    for n in 2..=1000 {
        all.push(live(&format!("work.{}", n), false));
    }
    m.update_sessions_stable(all);
    let name = m.generate_incremented_name("work", ".");
    assert_eq!(name.len(), "work.".len() + 8);
    assert!(name.starts_with("work."));
    assert!(name["work.".len()..]
        .chars()
        .all(|c| c.is_ascii_digit() || ('a'..='f').contains(&c)));
}

#[test]
fn decimal_text_writes_digits() {
    assert_eq!(decimal_text(0), "0");
    assert_eq!(decimal_text(7), "7");
    assert_eq!(decimal_text(1000), "1000");
    assert_eq!(decimal_text(4294967295), "4294967295");
}

#[test]
fn session_item_kinds_and_names() {
    let a = SessionItem::ExistingSession {
        name: "s".to_string(),
        directory: "/tmp".to_string(),
        is_current: false,
    };
    let b = SessionItem::ResurrectableSession {
        name: "r".to_string(),
        duration: Duration::from_secs(3),
    };
    let c = SessionItem::Directory {
        path: "/home/x".to_string(),
        session_name: "x".to_string(),
    };
    assert!(a.is_session() && !a.is_resurrectable_session());
    assert!(!b.is_session() && b.is_resurrectable_session());
    assert!(!c.is_session() && !c.is_resurrectable_session());
    assert_eq!(a.name(), "s");
    assert_eq!(b.name(), "r");
    assert_eq!(c.name(), "x");
}

#[test]
fn record_switch_at_uses_reading_or_zero() {
    let mut m = SessionManager::new();
    assert_eq!(m.record_switch_at("a", Some(42)), 42);
    assert_eq!(m.get_mru_rank("a"), 42);
    assert_eq!(m.record_switch_at("a", None), 0);
    assert_eq!(m.get_mru_rank("a"), 0);
}

#[test]
fn fallback_name_takes_first_eight_characters() {
    let name = session_switcher::manager::fallback_name(
        "work",
        ".",
        "0123abcd-ef01-4567-89ab-cdef01234567",
    );
    assert_eq!(name, "work.0123abcd");
}
