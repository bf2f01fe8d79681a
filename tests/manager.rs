use session_switcher::manager::{SessionManager, MISSING_THRESHOLD};
use session_switcher::types::SessionInfo;
use std::time::Duration;

fn make_session(name: &str, is_current: bool) -> SessionInfo {
    SessionInfo {
        name: name.to_string(),
        is_current_session: is_current,
    }
}

#[test]
fn test_new_session_added_immediately() {
    let mut manager = SessionManager::default();

    let changed = manager.update_sessions_stable(vec![make_session("test", false)]);

    assert!(changed);
    assert_eq!(manager.sessions().len(), 1);
    assert_eq!(manager.sessions()[0].name, "test");
}

#[test]
fn test_session_not_removed_on_single_missing_update() {
    let mut manager = SessionManager::default();

    manager.update_sessions_stable(vec![make_session("test", false)]);

    let changed = manager.update_sessions_stable(vec![]);

    assert!(!changed);
    assert_eq!(manager.sessions().len(), 1);
}

#[test]
fn test_session_removed_after_threshold_missing_updates() {
    let mut manager = SessionManager::default();

    manager.update_sessions_stable(vec![make_session("test", false)]);

    for i in 0..MISSING_THRESHOLD {
        let changed = manager.update_sessions_stable(vec![]);
        if i < MISSING_THRESHOLD - 1 {
            assert!(!changed, "Should not report changed before threshold");
            assert_eq!(manager.sessions().len(), 1, "Session should still exist");
        } else {
            assert!(changed, "Should report changed when removed");
            assert_eq!(manager.sessions().len(), 0, "Session should be removed");
        }
    }
}

#[test]
fn test_session_reappearing_resets_missing_count() {
    let mut manager = SessionManager::default();

    manager.update_sessions_stable(vec![make_session("test", false)]);

    manager.update_sessions_stable(vec![]);
    manager.update_sessions_stable(vec![]);

    let changed = manager.update_sessions_stable(vec![make_session("test", false)]);
    assert!(!changed);
    assert_eq!(manager.sessions().len(), 1);

    let changed = manager.update_sessions_stable(vec![]);
    assert!(!changed);
    assert_eq!(manager.sessions().len(), 1);
}

#[test]
fn test_is_current_session_update_triggers_change() {
    let mut manager = SessionManager::default();

    manager.update_sessions_stable(vec![make_session("test", false)]);

    let changed = manager.update_sessions_stable(vec![make_session("test", true)]);

    assert!(changed);
    assert!(manager.sessions()[0].is_current_session);
}

#[test]
fn test_resurrectable_name_change_triggers_update() {
    let mut manager = SessionManager::default();

    let changed = manager
        .update_resurrectable_stable(vec![("session1".to_string(), Duration::from_secs(60))]);
    assert!(changed);

    let changed = manager
        .update_resurrectable_stable(vec![("session1".to_string(), Duration::from_secs(120))]);
    assert!(!changed);

    let changed = manager
        .update_resurrectable_stable(vec![("session2".to_string(), Duration::from_secs(60))]);
    assert!(changed);
}

#[test]
fn test_resurrectable_case_insensitive_comparison() {
    let mut manager = SessionManager::default();

    manager.update_resurrectable_stable(vec![("Session".to_string(), Duration::from_secs(60))]);

    let changed = manager
        .update_resurrectable_stable(vec![("session".to_string(), Duration::from_secs(60))]);
    assert!(!changed);
}

#[test]
fn test_optimistic_removal_removes_session_immediately() {
    let mut manager = SessionManager::default();

    manager.update_sessions_stable(vec![
        make_session("keep", false),
        make_session("delete-me", false),
    ]);
    assert_eq!(manager.sessions().len(), 2);

    manager.remove_session_from_local_state("delete-me");

    assert_eq!(manager.sessions().len(), 1);
    assert_eq!(manager.sessions()[0].name, "keep");
}

#[test]
fn test_optimistic_removal_removes_resurrectable_immediately() {
    let mut manager = SessionManager::default();

    manager.update_resurrectable_stable(vec![(
        "dead-session".to_string(),
        Duration::from_secs(60),
    )]);
    assert_eq!(manager.resurrectable_sessions().len(), 1);

    manager.remove_session_from_local_state("dead-session");

    assert_eq!(manager.resurrectable_sessions().len(), 0);
}

#[test]
fn test_optimistic_removal_cleans_up_missing_counts() {
    let mut manager = SessionManager::default();

    manager.update_sessions_stable(vec![make_session("test", false)]);

    manager.update_sessions_stable(vec![]);
    manager.update_sessions_stable(vec![make_session("test", false)]);
    manager.update_sessions_stable(vec![]);

    manager.remove_session_from_local_state("test");

    assert_eq!(manager.sessions().len(), 0);
}

#[test]
fn test_optimistic_rename_updates_session_name() {
    let mut manager = SessionManager::default();

    manager.update_sessions_stable(vec![
        make_session("old-name", true),
        make_session("other", false),
    ]);
    assert_eq!(manager.sessions().len(), 2);

    manager.rename_session_in_local_state("old-name", "new-name");

    assert_eq!(manager.sessions().len(), 2);
    assert!(manager.sessions().iter().any(|s| s.name == "new-name"));
    assert!(!manager.sessions().iter().any(|s| s.name == "old-name"));
}

#[test]
fn test_optimistic_rename_transfers_mru_timestamp() {
    let mut manager = SessionManager::default();

    manager.update_sessions_stable(vec![make_session("old-name", true)]);
    manager.record_switch("old-name");
    let old_ts = manager.get_mru_rank("old-name");
    assert!(old_ts > 0);

    manager.rename_session_in_local_state("old-name", "new-name");

    assert_eq!(manager.get_mru_rank("new-name"), old_ts);
    assert_eq!(manager.get_mru_rank("old-name"), 0);
}
