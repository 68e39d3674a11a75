use scrcpygui::registry::{
    make_session_id, KillOutcome, PollStatus, Session, SessionRegistry, SessionStatus,
};

fn session(id: &str, device: &str, pid: u64) -> Session {
    Session {
        session_id: String::from(id),
        device_id: String::from(device),
        pid,
        started_at: String::from("2024-01-01T00:00:00Z"),
    }
}

#[test]
fn add_then_remove_lifecycle() {
    let mut reg = SessionRegistry::new();
    assert_eq!(reg.active_count(), 0);
    reg.add(session("s1", "dev1", 41));
    assert!(reg.is_running("s1"));
    assert_eq!(reg.active_count(), 1);
    let removed = reg.remove("s1").unwrap();
    assert_eq!(removed.device_id, "dev1");
    assert_eq!(reg.active_count(), 0);
    assert!(reg.remove("s1").is_none());
    assert!(!reg.is_running("s1"));
}

#[test]
fn add_replaces_stale_entry_with_same_id() {
    let mut reg = SessionRegistry::new();
    reg.add(session("s1", "dev1", 41));
    reg.add(session("s1", "dev1", 42));
    assert_eq!(reg.active_count(), 1);
    assert_eq!(reg.remove("s1").unwrap().pid, 42);
}

#[test]
fn cleanup_removes_exited_and_unknown_keeps_running() {
    let mut reg = SessionRegistry::new();
    reg.add(session("alive", "d1", 1));
    reg.add(session("gone", "d2", 2));
    reg.add(session("lost", "d3", 3));
    reg.add(session("unpolled", "d4", 4));
    let observations = vec![
        (String::from("alive"), PollStatus::Running),
        (String::from("gone"), PollStatus::Exited),
        (String::from("lost"), PollStatus::Unknown),
    ];
    reg.cleanup(&observations);
    assert!(reg.is_running("alive"));
    assert!(!reg.is_running("gone"));
    assert!(!reg.is_running("lost"));
    assert!(reg.is_running("unpolled"));
    assert_eq!(reg.active_count(), 2);
}

#[test]
fn stop_all_drains_everything() {
    let mut reg = SessionRegistry::new();
    reg.add(session("a", "d1", 1));
    reg.add(session("b", "d2", 2));
    reg.add(session("c", "d3", 3));
    let drained = reg.stop_all();
    assert_eq!(drained.len(), 3);
    assert_eq!(reg.active_count(), 0);
    let mut ids: Vec<String> = drained.into_iter().map(|s| s.session_id).collect();
    ids.sort();
    assert_eq!(ids, vec!["a", "b", "c"]);
}

#[test]
fn settle_stop_reinserts_on_failure() {
    let mut reg = SessionRegistry::new();
    let s = reg
        .remove("nothing")
        .unwrap_or(session("s9", "dev9", 99));
    assert!(reg.settle_stop(s, KillOutcome::Killed).is_ok());
    assert_eq!(reg.active_count(), 0);

    let s2 = session("s9", "dev9", 99);
    assert!(reg
        .settle_stop(s2, KillOutcome::AlreadyExited)
        .is_ok());
    assert_eq!(reg.active_count(), 0);

    let s3 = session("s9", "dev9", 99);
    let err = reg
        .settle_stop(s3, KillOutcome::Failed(String::from("permission denied")))
        .unwrap_err();
    assert_eq!(err, "Failed to stop session: permission denied");
    assert!(reg.is_running("s9"));
    assert_eq!(reg.active_count(), 1);
}

#[test]
fn disjoint_callers_leave_exactly_unremoved_sessions() {
    // two orders of the same operations on disjoint ids agree
    let mut one = SessionRegistry::new();
    one.add(session("a", "d1", 1));
    one.add(session("b", "d2", 2));
    one.remove("a");

    let mut two = SessionRegistry::new();
    two.add(session("b", "d2", 2));
    two.add(session("a", "d1", 1));
    two.remove("a");

    for reg in [&one, &two] {
        assert!(!reg.is_running("a"));
        assert!(reg.is_running("b"));
        assert_eq!(reg.active_count(), 1);
    }
    assert_eq!(one.describe("b"), two.describe("b"));
}

#[test]
fn describe_and_listings_report_tracked_sessions() {
    let mut reg = SessionRegistry::new();
    reg.add(session("s1", "dev1", 7));
    let (device, started) = reg.describe("s1").unwrap();
    assert_eq!(device, "dev1");
    assert_eq!(started, "2024-01-01T00:00:00Z");
    assert!(reg.describe("s2").is_none());

    let ids = reg.list_session_ids();
    assert_eq!(ids, vec!["s1"]);

    let sessions = reg.active_sessions();
    assert_eq!(sessions.len(), 1);
    assert_eq!(sessions[0].session_id, "s1");
    assert!(matches!(sessions[0].status, SessionStatus::Running));
}

#[test]
fn session_ids_derive_from_device_and_process() {
    assert_eq!(make_session_id("devA", 1234), "devA-1234");
    assert_eq!(make_session_id("devA", 0), "devA-0");
    assert_ne!(make_session_id("devA", 12), make_session_id("devA", 13));
    assert_ne!(make_session_id("devA", 12), make_session_id("devB", 12));
    assert_ne!(make_session_id("dev-1", 2), make_session_id("dev", 12));
}
