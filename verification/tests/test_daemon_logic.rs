use pam_linuxcampam::daemon::{
    check_lock, new_presence_state, on_presence_report, outcome_reply, plan_request,
    request_target, ActionOutcome, DaemonAction, PresenceChange, ProximityRules,
};
use pam_linuxcampam::ipc_protocol::Request;
use pam_linuxcampam::logger::LogLevel;
use pam_linuxcampam::LINUXCAMPAM_VERSION;

fn request(line: &str) -> Request {
    Request::deserialize(line)
}

fn reply_of(action: DaemonAction) -> String {
    match action {
        DaemonAction::Reply(s) => s,
        other => panic!("expected a reply, got {other:?}"),
    }
}

#[test]
fn auth_request_checks_permission_and_presence() {
    let req = request("AUTH_REQUEST alice");
    assert_eq!(request_target(&req).as_deref(), Some("alice"));
    match plan_request(&req, 1000, Some(1000), false) {
        DaemonAction::Verify(u) => assert_eq!(u, "alice"),
        other => panic!("unexpected {other:?}"),
    }
    assert_eq!(reply_of(plan_request(&req, 1001, Some(1000), false)), "AUTH_FAIL");
    assert_eq!(reply_of(plan_request(&req, 1001, None, false)), "AUTH_FAIL");
    assert_eq!(
        reply_of(plan_request(&req, 0, None, true)),
        "AUTH_FAIL: Proximity sensor reports no human present"
    );
}

#[test]
fn missing_arguments_are_answered() {
    assert_eq!(reply_of(plan_request(&request("AUTH_REQUEST"), 0, None, false)), "ERROR Unknown Command");
    assert_eq!(reply_of(plan_request(&request("SET_LABEL bob"), 0, None, false)), "ERROR Missing user or label");
    assert_eq!(reply_of(plan_request(&request("TRAIN_NEW"), 0, None, false)), "ERROR Missing user");
    assert_eq!(reply_of(plan_request(&request("LIST_EMBEDDINGS"), 0, None, false)), "ERROR Missing user");
    assert_eq!(reply_of(plan_request(&request("NOPE x"), 0, None, false)), "ERROR Unknown Command");
    assert_eq!(request_target(&request("SET_LABEL bob")), None);
}

#[test]
fn training_defaults_its_label() {
    match plan_request(&request("TRAIN_USER bob"), 0, None, false) {
        DaemonAction::Train { user, label, create_new } => {
            assert_eq!(user, "bob");
            assert_eq!(label, "default");
            assert!(!create_new);
        }
        other => panic!("unexpected {other:?}"),
    }
    match plan_request(&request("TRAIN_NEW bob night"), 0, None, false) {
        DaemonAction::Train { label, create_new, .. } => {
            assert_eq!(label, "night");
            assert!(create_new);
        }
        other => panic!("unexpected {other:?}"),
    }
    assert_eq!(
        reply_of(plan_request(&request("TRAIN_USER bob"), 5, Some(6), false)),
        "ERROR Permission Denied"
    );
}

#[test]
fn log_level_needs_root() {
    assert_eq!(reply_of(plan_request(&request("SET_LOG_LEVEL DEBUG"), 1000, Some(1000), false)), "ERROR Permission Denied");
    match plan_request(&request("SET_LOG_LEVEL DEBUG"), 0, None, false) {
        DaemonAction::SetLogLevel(l) => assert_eq!(l, LogLevel::Debug),
        other => panic!("unexpected {other:?}"),
    }
    assert_eq!(reply_of(plan_request(&request("SET_LOG_LEVEL WARN"), 0, None, false)), "ERROR Invalid Log Level");
    assert!(matches!(plan_request(&request("GET_LOG_LEVEL"), 7, None, false), DaemonAction::GetLogLevel));
    assert!(matches!(plan_request(&request("TEST_AUTH"), 7, None, false), DaemonAction::TestHardware));
}

#[test]
fn replies_to_outcomes() {
    assert_eq!(outcome_reply(&ActionOutcome::Verified(true)), "AUTH_SUCCESS");
    assert_eq!(
        outcome_reply(&ActionOutcome::Enrolled { ok: false, message: "Write failed".to_string() }),
        "ENROLL_FAIL Write failed"
    );
    assert_eq!(
        outcome_reply(&ActionOutcome::Listed(vec!["a".to_string(), "b c".to_string()])),
        "Labels: a b c"
    );
    assert_eq!(outcome_reply(&ActionOutcome::Listed(Vec::new())), "No embeddings found");
    assert_eq!(
        outcome_reply(&ActionOutcome::Version { ir_status: "1.0".to_string() }),
        format!("{LINUXCAMPAM_VERSION} (IR Emitter: 1.0)")
    );
    assert_eq!(
        outcome_reply(&ActionOutcome::Version { ir_status: String::new() }),
        LINUXCAMPAM_VERSION
    );
    assert_eq!(
        outcome_reply(&ActionOutcome::TestedUser { success: false, reason: "No face detected".to_string() }),
        "HW_OK | AUTH_FAIL: No face detected"
    );
    assert_eq!(outcome_reply(&ActionOutcome::LogLevelSet(LogLevel::Info)), "LOG_LEVEL_INFO");
    assert_eq!(outcome_reply(&ActionOutcome::LogLevelIs(LogLevel::Warn)), "WARN");
    assert_eq!(outcome_reply(&ActionOutcome::Removed(false)), "REMOVE_FAIL");
}

fn rules(lock_enabled: bool) -> ProximityRules {
    ProximityRules {
        wake_enabled: true,
        wake_confidence_threshold: 50,
        always_wake_on_presence_detected: true,
        lock_enabled,
        lock_confidence_threshold: 5,
        lock_timeout_seconds: 10,
    }
}

#[test]
fn presence_wakes_once_then_locks_after_timeout() {
    let r = rules(true);
    let mut st = new_presence_state(0);
    let e = on_presence_report(&mut st, r, true, 80, 100);
    assert!(e.wake);
    assert_eq!(e.change, Some(PresenceChange::Arrived(80)));
    let e = on_presence_report(&mut st, r, true, 90, 200);
    assert!(!e.wake);
    assert_eq!(e.change, None);
    let e = on_presence_report(&mut st, r, false, 0, 1_000);
    assert_eq!(e.change, Some(PresenceChange::Left(90)));
    assert!(st.absence_timer_active);
    assert!(!check_lock(&mut st, r, 10_999));
    assert!(check_lock(&mut st, r, 11_000));
    assert!(st.was_away);
    assert!(!check_lock(&mut st, r, 50_000));
}

#[test]
fn low_confidence_does_not_wake() {
    let r = rules(false);
    let mut st = new_presence_state(0);
    let e = on_presence_report(&mut st, r, true, 40, 100);
    assert!(!e.wake);
    assert!(st.was_away);
}

#[test]
fn other_users_data_is_refused() {
    for line in [
        "ADD_USER bob",
        "TRAIN_USER bob",
        "TRAIN_NEW bob x",
        "TEST_AUTH bob",
        "SET_LABEL bob x",
        "LIST_EMBEDDINGS bob",
        "REMOVE_EMBEDDING bob x",
    ] {
        let req = request(line);
        assert_eq!(request_target(&req).as_deref(), Some("bob"));
        assert_eq!(reply_of(plan_request(&req, 1000, Some(1001), false)), "ERROR Permission Denied");
        assert_eq!(reply_of(plan_request(&req, 1000, None, false)), "ERROR Permission Denied");
        assert!(!matches!(plan_request(&req, 1001, Some(1001), false), DaemonAction::Reply(_)));
        assert!(!matches!(plan_request(&req, 0, None, false), DaemonAction::Reply(_)));
    }
}
