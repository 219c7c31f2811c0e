use pam_linuxcampam::auth::LockoutTracker;
use pam_linuxcampam::utils::is_valid_username;

const MAX_CAMERA_PATH_LENGTH: usize = 20;
const EMBEDDING_DIM: usize = 128;
const DEFAULT_EMBEDDING_VAL: f32 = 0.5;

fn is_valid_camera_path(path: &str) -> bool {
    if !path.starts_with("/dev/video") {
        return false;
    }
    if path.contains("..") {
        return false;
    }
    if path.len() > MAX_CAMERA_PATH_LENGTH {
        return false;
    }
    true
}

fn is_valid_config_path(path: &str) -> bool {
    if path.is_empty() || !path.starts_with('/') {
        return false;
    }
    if path.contains("..") {
        return false;
    }
    if !path.ends_with(".ini") {
        return false;
    }
    true
}

fn is_valid_embedding(emb: &[f32]) -> bool {
    if emb.len() != EMBEDDING_DIM {
        return false;
    }
    for &v in emb {
        if v.is_nan() || v.is_infinite() {
            return false;
        }
    }
    true
}

#[test]
fn test_command_injection_via_username() {
    assert!(!is_valid_username("user; rm -rf /"));
    assert!(!is_valid_username("user$(whoami)"));
    assert!(!is_valid_username("user`id`"));
    assert!(!is_valid_username("user|cat /etc/passwd"));
    assert!(!is_valid_username("user&& malicious"));
    assert!(!is_valid_username("user\necho pwned"));
    assert!(!is_valid_username("user\recho pwned"));
    assert!(!is_valid_username("$(cat /etc/shadow)"));
    assert!(!is_valid_username("${PATH}"));

    let null_injection = "user\0admin".to_string();
    assert!(!is_valid_username(&null_injection));
}

#[test]
fn test_camera_path_validation() {
    assert!(is_valid_camera_path("/dev/video0"));
    assert!(is_valid_camera_path("/dev/video1"));
    assert!(is_valid_camera_path("/dev/video10"));

    assert!(!is_valid_camera_path("/dev/video0/../video1"));
    assert!(!is_valid_camera_path("/dev/../etc/passwd"));

    assert!(!is_valid_camera_path("/dev/sda1"));
    assert!(!is_valid_camera_path("/etc/passwd"));
    assert!(!is_valid_camera_path("/tmp/fake_video0"));

    assert!(!is_valid_camera_path("/dev/video0; cat /etc/passwd"));
}

#[test]
fn test_config_path_validation() {
    assert!(is_valid_config_path("/etc/linuxcampam/config.ini"));
    assert!(is_valid_config_path("/home/user/.config/test.ini"));

    assert!(!is_valid_config_path("config.ini"));
    assert!(!is_valid_config_path("./config.ini"));

    assert!(!is_valid_config_path("/etc/linuxcampam/../passwd"));
    assert!(!is_valid_config_path("/tmp/../etc/shadow.ini"));

    assert!(!is_valid_config_path("/etc/linuxcampam/config.sh"));
    assert!(!is_valid_config_path("/etc/passwd"));
}

#[test]
fn test_embedding_nan_and_inf_values() {
    let mut embedding = vec![DEFAULT_EMBEDDING_VAL; EMBEDDING_DIM];

    embedding[0] = f32::NAN;
    assert!(embedding[0].is_nan());

    embedding[1] = f32::INFINITY;
    assert!(embedding[1].is_infinite());

    embedding[2] = DEFAULT_EMBEDDING_VAL;
    assert!(!embedding[2].is_nan());
    assert!(!embedding[2].is_infinite());
}

#[test]
fn test_embedding_validation() {
    const WRONG_DIM: usize = 64;
    const SPECIAL_INDEX: usize = 50;

    let valid = vec![DEFAULT_EMBEDDING_VAL; EMBEDDING_DIM];
    assert!(is_valid_embedding(&valid));

    let wrong_size = vec![DEFAULT_EMBEDDING_VAL; WRONG_DIM];
    assert!(!is_valid_embedding(&wrong_size));

    let mut with_nan = vec![DEFAULT_EMBEDDING_VAL; EMBEDDING_DIM];
    with_nan[SPECIAL_INDEX] = f32::NAN;
    assert!(!is_valid_embedding(&with_nan));

    let mut with_inf = vec![DEFAULT_EMBEDDING_VAL; EMBEDDING_DIM];
    with_inf[SPECIAL_INDEX] = f32::INFINITY;
    assert!(!is_valid_embedding(&with_inf));
}

#[test]
fn test_large_user_file_prevention() {
    const MAX_REASONABLE_SIZE: usize = 1024 * 1024;
    let emb = vec![DEFAULT_EMBEDDING_VAL; EMBEDDING_DIM];
    let single_emb_size = emb.len() * std::mem::size_of::<f32>();

    assert!(single_emb_size * 1000 < MAX_REASONABLE_SIZE);
}

/// The lockout settings and tracker of the engine, with a clock in
/// milliseconds that the test advances.
struct LockoutTestContext {
    tracker: LockoutTracker,
    lockout_attempts: i32,
    lockout_duration_sec: i32,
    clock_ms: u64,
}

impl LockoutTestContext {
    fn new() -> Self {
        Self {
            tracker: LockoutTracker::new(),
            lockout_attempts: 5,
            lockout_duration_sec: 300,
            clock_ms: 0,
        }
    }

    fn now_ms(&self) -> u64 {
        self.clock_ms
    }

    fn sleep_ms(&mut self, ms: u64) {
        self.clock_ms += ms;
    }

    fn is_user_locked_out(&self, username: &str) -> bool {
        self.tracker
            .is_user_locked_out(self.lockout_attempts, username, self.now_ms())
    }

    fn record_auth_attempt(&mut self, username: &str, success: bool) {
        let now = self.now_ms();
        self.tracker.record_auth_attempt(
            self.lockout_attempts,
            self.lockout_duration_sec,
            username,
            success,
            now,
        );
    }

    fn disable_lockout(&mut self) {
        self.lockout_attempts = 0;
    }

    fn set_lockout_duration(&mut self, seconds: i32) {
        self.lockout_duration_sec = seconds;
    }

    fn get_lockout_attempts(&self) -> i32 {
        self.lockout_attempts
    }

    fn get_lockout_duration(&self) -> i32 {
        self.lockout_duration_sec
    }
}

#[test]
fn test_lockout_after_failed_attempts() {
    let mut ctx = LockoutTestContext::new();
    let user = "testuser";

    for _ in 0..4 {
        ctx.record_auth_attempt(user, false);
        assert!(!ctx.is_user_locked_out(user));
    }

    ctx.record_auth_attempt(user, false);
    assert!(ctx.is_user_locked_out(user));
}

#[test]
fn test_success_resets_counter() {
    let mut ctx = LockoutTestContext::new();
    let user = "testuser";

    for _ in 0..3 {
        ctx.record_auth_attempt(user, false);
    }
    assert!(!ctx.is_user_locked_out(user));

    ctx.record_auth_attempt(user, true);

    for _ in 0..4 {
        ctx.record_auth_attempt(user, false);
    }
    assert!(!ctx.is_user_locked_out(user));
}

#[test]
fn test_disabled_when_zero() {
    let mut ctx = LockoutTestContext::new();
    ctx.disable_lockout();
    let user = "testuser";

    for _ in 0..100 {
        ctx.record_auth_attempt(user, false);
    }
    assert!(!ctx.is_user_locked_out(user));
}

#[test]
fn test_lockout_expiration() {
    let mut ctx = LockoutTestContext::new();
    ctx.set_lockout_duration(1);
    let user = "testuser";

    for _ in 0..ctx.get_lockout_attempts() {
        ctx.record_auth_attempt(user, false);
    }
    assert!(ctx.is_user_locked_out(user));

    ctx.sleep_ms(1100);
    assert!(!ctx.is_user_locked_out(user));
}

#[test]
fn test_config_parsing_defaults() {
    let ctx = LockoutTestContext::new();
    assert_eq!(ctx.get_lockout_attempts(), 5);
    assert_eq!(ctx.get_lockout_duration(), 300);
}
