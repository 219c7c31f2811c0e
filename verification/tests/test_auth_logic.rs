use pam_linuxcampam::auth::{
    abort_reason_text, collect_labels, enroll_camera_check, enroll_capture_mode, refusal_reason, get_active_provider, new_tally,
    remove_label, set_label_slot, should_unload_models, train_slot, verdict_counts_as_attempt,
    verdict_reason, verify_step, verify_verdict, AbortReason, CameraOutcome, CaptureMode,
    LockoutTracker, SlotAction, VerifyStep, VerifyTally, VerifyVerdict,
};
use pam_linuxcampam::config::{AuthPolicy, CameraDefinition, Configuration};
use pam_linuxcampam::utils::{is_valid_username, ICameraBackend};

struct NoCameras;

impl ICameraBackend for NoCameras {
    fn get_device_paths(&self) -> Vec<String> {
        Vec::new()
    }
    fn is_video_capture_device(&self, _path: &str) -> bool {
        false
    }
    fn get_pixel_formats(&self, _path: &str) -> Vec<u32> {
        Vec::new()
    }
}

/// The engine's lockout state with the settings of a configuration file.
struct Fixture {
    config: Configuration,
    tracker: LockoutTracker,
    now_ms: u64,
}

impl Fixture {
    fn new(lockout_attempts: i32, lockout_duration_sec: i32) -> Self {
        let mut config = Configuration::new();
        let ini = format!(
            "[Cameras]\nnames=mock_cam\n\n[Camera.mock_cam]\npath=/dev/video0\ntype=rgb\n\n[Security]\nlockout_attempts={lockout_attempts}\nlockout_duration_sec={lockout_duration_sec}\n"
        );
        assert!(config.load(&ini, &NoCameras));
        Fixture { config, tracker: LockoutTracker::new(), now_ms: 1_000 }
    }

    fn record_auth_attempt(&mut self, user: &str, success: bool) {
        self.tracker.record_auth_attempt(
            self.config.lockout_attempts,
            self.config.lockout_duration_sec,
            user,
            success,
            self.now_ms,
        );
    }

    fn is_user_locked_out(&self, user: &str) -> bool {
        self.tracker
            .is_user_locked_out(self.config.lockout_attempts, user, self.now_ms)
    }
}

#[test]
fn test_lockout_activates_after_n_failures() {
    let mut fix = Fixture::new(3, 10);
    assert!(!fix.is_user_locked_out("alice"));
    fix.record_auth_attempt("alice", false);
    fix.record_auth_attempt("alice", false);
    assert!(!fix.is_user_locked_out("alice"));
    fix.record_auth_attempt("alice", false);
    assert!(fix.is_user_locked_out("alice"));
}

#[test]
fn test_successful_attempt_resets_counter() {
    let mut fix = Fixture::new(3, 10);
    fix.record_auth_attempt("charlie", false);
    fix.record_auth_attempt("charlie", false);
    assert!(!fix.is_user_locked_out("charlie"));

    fix.record_auth_attempt("charlie", true);
    assert!(!fix.is_user_locked_out("charlie"));

    fix.record_auth_attempt("charlie", false);
    fix.record_auth_attempt("charlie", false);
    assert!(!fix.is_user_locked_out("charlie"));
}

#[test]
fn test_lockout_disabled_when_attempts_is_zero() {
    let mut fix = Fixture::new(0, 10);
    for _ in 0..100 {
        fix.record_auth_attempt("dave", false);
    }
    assert!(!fix.is_user_locked_out("dave"));
    assert!(fix.tracker.get("dave").is_none());
}

#[test]
fn test_lockout_expires_after_duration() {
    let mut fix = Fixture::new(3, 1);
    fix.record_auth_attempt("eve", false);
    fix.record_auth_attempt("eve", false);
    fix.record_auth_attempt("eve", false);
    assert!(fix.is_user_locked_out("eve"));

    fix.now_ms += 2_000;
    assert!(!fix.is_user_locked_out("eve"));
}

#[test]
fn test_lockout_is_user_specific() {
    let mut fix = Fixture::new(3, 10);
    fix.record_auth_attempt("frank", false);
    fix.record_auth_attempt("frank", false);
    fix.record_auth_attempt("frank", false);
    assert!(fix.is_user_locked_out("frank"));

    assert!(!fix.is_user_locked_out("grace"));
}

#[test]
fn lockout_counts_and_reports_the_locking_attempt() {
    let mut t = LockoutTracker::new();
    assert!(!t.record_auth_attempt(2, 5, "u", false, 0));
    assert!(t.record_auth_attempt(2, 5, "u", false, 100));
    let st = t.get("u").unwrap();
    assert_eq!(st.failed_attempts, 2);
    assert_eq!(st.lockout_until_ms, Some(5_100));
    assert!(t.is_user_locked_out(2, "u", 5_099));
    assert!(!t.is_user_locked_out(2, "u", 5_100));
}

fn tally_of(policy: AuthPolicy, cams: &[(bool, CameraOutcome)]) -> VerifyStep {
    let mut t = new_tally();
    for (mandatory, o) in cams {
        match verify_step(policy, *mandatory, t, *o) {
            VerifyStep::Next(n) => t = n,
            abort => return abort,
        }
    }
    VerifyStep::Next(t)
}

#[test]
fn strict_policy_needs_every_camera() {
    let ok = CameraOutcome::Compared { matched: true };
    let bad = CameraOutcome::Compared { matched: false };
    match tally_of(AuthPolicy::StrictAll, &[(true, ok), (false, bad)]) {
        VerifyStep::Next(t) => {
            assert_eq!(verify_verdict(AuthPolicy::StrictAll, t, true), VerifyVerdict::Mismatch { some_no_face: false })
        }
        _ => panic!("no abort expected"),
    }
    match tally_of(AuthPolicy::StrictAll, &[(true, ok), (false, CameraOutcome::TooDark)]) {
        VerifyStep::Next(t) => assert_eq!(verify_verdict(AuthPolicy::StrictAll, t, true), VerifyVerdict::Success),
        _ => panic!("no abort expected"),
    }
    assert_eq!(
        tally_of(AuthPolicy::StrictAll, &[(false, CameraOutcome::CaptureFailed), (true, ok)]),
        VerifyStep::Abort(AbortReason::CaptureFailed)
    );
}

#[test]
fn lenient_policy_needs_one_match() {
    let ok = CameraOutcome::Compared { matched: true };
    match tally_of(AuthPolicy::LenientAny, &[(true, CameraOutcome::CaptureFailed), (false, CameraOutcome::NoFace), (false, ok)]) {
        VerifyStep::Next(t) => {
            assert_eq!(t.participants, 2);
            assert_eq!(verify_verdict(AuthPolicy::LenientAny, t, true), VerifyVerdict::Success);
        }
        _ => panic!("no abort expected"),
    }
}

#[test]
fn adaptive_policy_stops_on_mandatory_camera() {
    assert_eq!(
        tally_of(AuthPolicy::Adaptive, &[(true, CameraOutcome::CaptureFailed)]),
        VerifyStep::Abort(AbortReason::MandatoryCaptureFailed)
    );
    assert_eq!(
        tally_of(AuthPolicy::Adaptive, &[(true, CameraOutcome::TooDark)]),
        VerifyStep::Abort(AbortReason::MandatoryTooDark)
    );
    assert_eq!(
        tally_of(AuthPolicy::Adaptive, &[(false, CameraOutcome::TooDark)]),
        VerifyStep::Next(new_tally())
    );
}

#[test]
fn verdicts_and_reasons() {
    let none = new_tally();
    let v = verify_verdict(AuthPolicy::Adaptive, none, false);
    assert_eq!(v, VerifyVerdict::NoParticipants);
    assert!(!verdict_counts_as_attempt(v));
    assert_eq!(verdict_reason(v, "0.00"), "No cameras participated");

    let t = VerifyTally { participants: 1, successes: 0, failures: 1, any_no_face: true };
    assert_eq!(verify_verdict(AuthPolicy::Adaptive, t, false), VerifyVerdict::NoFace);
    assert_eq!(verdict_reason(VerifyVerdict::NoFace, ""), "No face detected");
    let m = verify_verdict(AuthPolicy::Adaptive, t, true);
    assert_eq!(
        verdict_reason(m, "0.12"),
        "Face mismatch (score: 0.12) (some cameras failed detection)"
    );
    let t2 = VerifyTally { any_no_face: false, ..t };
    assert_eq!(verify_verdict(AuthPolicy::Adaptive, t2, false), VerifyVerdict::Failed);
    assert_eq!(verdict_reason(VerifyVerdict::Failed, ""), "Authentication failed");
    assert_eq!(verdict_reason(VerifyVerdict::Success, "0.9"), "");
    assert!(verdict_counts_as_attempt(VerifyVerdict::Success));
}

#[test]
fn abort_reasons_name_the_camera() {
    assert_eq!(abort_reason_text(AbortReason::CaptureFailed, "ir"), "Camera ir failed to capture");
    assert_eq!(abort_reason_text(AbortReason::MandatoryCaptureFailed, "ir"), "Mandatory Camera ir failed");
    assert_eq!(abort_reason_text(AbortReason::MandatoryTooDark, "rgb"), "Mandatory Camera rgb too dark");
}

fn camera(hdr: &str, averaging: &str, frames: i32) -> CameraDefinition {
    CameraDefinition {
        id: "cam".to_string(),
        path: "/dev/video0".to_string(),
        cam_type: "rgb".to_string(),
        min_brightness: 0,
        mandatory: true,
        enroll_hdr: hdr.to_string(),
        enroll_averaging: averaging.to_string(),
        enroll_average_frames: frames,
    }
}

#[test]
fn enrolment_capture_modes() {
    let config = Configuration::new();
    // The default HDR setting is `auto`.
    assert_eq!(enroll_capture_mode(&camera("", "", 0), &config, true), (CaptureMode::Hdr, true));
    assert_eq!(
        enroll_capture_mode(&camera("", "", 0), &config, false),
        (CaptureMode::Averaged { frames: 5 }, true)
    );
    assert_eq!(
        enroll_capture_mode(&camera("off", "false", 0), &config, true),
        (CaptureMode::Single, false)
    );
    assert_eq!(
        enroll_capture_mode(&camera("off", "on", 7), &config, true),
        (CaptureMode::Averaged { frames: 7 }, true)
    );
}

#[test]
fn active_provider_is_first_known() {
    let v = |xs: &[&str]| xs.iter().map(|s| s.to_string()).collect::<Vec<_>>();
    assert_eq!(get_active_provider(&v(&["CUDA", "CPU", "OpenCL"])), "CPU");
    assert_eq!(get_active_provider(&v(&["OpenCL", "CPU"])), "OpenCL");
    assert_eq!(get_active_provider(&v(&["CUDA"])), "CPU (Default)");
}

#[test]
fn unload_after_keep_alive() {
    assert!(should_unload_models(60, true, 61));
    assert!(!should_unload_models(60, true, 60));
    assert!(!should_unload_models(0, true, 1000));
    assert!(!should_unload_models(60, false, 1000));
}

fn labels(xs: &[Option<&str>]) -> Vec<Option<String>> {
    xs.iter().map(|l| l.map(|s| s.to_string())).collect()
}

#[test]
fn set_label_slots() {
    let l = labels(&[Some("default"), None, Some("glasses")]);
    assert_eq!(set_label_slot(&l, "glasses", 3), SlotAction::Replace(2));
    assert_eq!(set_label_slot(&l, "night", 3), SlotAction::Full);
    assert_eq!(set_label_slot(&l, "night", 4), SlotAction::Append);
    assert_eq!(set_label_slot(&l, "night", 0), SlotAction::Append);
}

#[test]
fn train_slots() {
    let l = labels(&[Some("default"), Some("default")]);
    assert_eq!(train_slot(&l, &vec![false, true], "default", false, 5), SlotAction::Replace(1));
    assert_eq!(train_slot(&l, &vec![false, false], "default", false, 5), SlotAction::Append);
    assert_eq!(train_slot(&l, &vec![true, true], "x", true, 2), SlotAction::Full);
    assert_eq!(train_slot(&l, &vec![true, true], "x", true, 3), SlotAction::Append);
}

#[test]
fn test_remove_embedding_deletes_correct_label() {
    let entries = vec![
        (Some("default".to_string()), 1),
        (Some("glasses".to_string()), 2),
        (None, 3),
        (Some("glasses".to_string()), 4),
    ];
    let (kept, removed) = remove_label(entries, "glasses");
    assert!(removed);
    assert_eq!(kept, vec![(Some("default".to_string()), 1), (None, 3)]);
    let (kept, removed) = remove_label(kept, "missing");
    assert!(!removed);
    assert_eq!(kept.len(), 2);
}

#[test]
fn listed_labels_are_sorted_and_unique() {
    let cams = vec![
        (labels(&[Some("night"), Some("default")]), false),
        (labels(&[Some("default"), None, Some("alpha")]), true),
    ];
    assert_eq!(
        collect_labels(&cams),
        vec!["alpha", "default", "default (legacy)", "night"]
    );
    assert!(collect_labels(&Vec::new()).is_empty());
}

#[test]
fn test_rate_limiting_lockout() {
    let mut fix = Fixture::new(3, 10);
    for _ in 0..3 {
        assert!(refusal_reason("user_limited", fix.is_user_locked_out("user_limited")).is_none());
        fix.record_auth_attempt("user_limited", false);
    }
    let reason = refusal_reason("user_limited", fix.is_user_locked_out("user_limited")).unwrap();
    assert!(reason.to_lowercase().contains("locked"));
}

#[test]
fn test_lockout_blocks_verify_without_models() {
    let mut fix = Fixture::new(3, 10);
    fix.record_auth_attempt("bob", false);
    fix.record_auth_attempt("bob", false);
    fix.record_auth_attempt("bob", false);
    assert!(fix.is_user_locked_out("bob"));

    let reason = refusal_reason("bob", fix.is_user_locked_out("bob")).unwrap();
    assert!(reason.to_lowercase().contains("locked"));
}

#[test]
fn test_remove_embedding_returns_false_for_nonexistent_label() {
    let entries = vec![(Some("existing_label".to_string()), 1)];
    let (kept, removed) = remove_label(entries, "no_such_label");
    assert!(!removed);
    assert_eq!(kept, vec![(Some("existing_label".to_string()), 1)]);
}

#[test]
fn test_train_user_rejects_invalid_username() {
    assert!(!is_valid_username("../evil"));
    assert!(!is_valid_username(""));
    assert_eq!(refusal_reason("../evil", false), Some("Invalid username"));
    assert_eq!(refusal_reason("", true), Some("Invalid username"));
}

#[test]
fn refusals_before_verification() {
    assert_eq!(refusal_reason("alice", false), None);
    assert_eq!(refusal_reason("alice", true), Some("User locked out"));
}

#[test]
fn failures_below_the_limit_take_no_duration() {
    let mut t = LockoutTracker::new();
    assert!(!t.record_auth_attempt(3, -5, "x", false, 0));
    assert!(!t.record_auth_attempt(3, -5, "x", false, 10));
    assert_eq!(t.get("x").unwrap().failed_attempts, 2);
    assert!(!t.is_user_locked_out(3, "x", 10));
    assert!(!t.record_auth_attempt(3, -5, "x", true, 20));
    assert_eq!(t.get("x").unwrap().failed_attempts, 0);
}

#[test]
fn enrolment_stops_unless_one_face() {
    assert_eq!(enroll_camera_check("ir0", Some(1)), None);
    assert_eq!(enroll_camera_check("ir0", None).as_deref(), Some("Camera ir0 failed (empty frame)."));
    assert_eq!(
        enroll_camera_check("rgb1", Some(0)).as_deref(),
        Some("Found 0 faces in rgb1. Expecting exactly 1.")
    );
    assert_eq!(
        enroll_camera_check("rgb1", Some(12)).as_deref(),
        Some("Found 12 faces in rgb1. Expecting exactly 1.")
    );
}
