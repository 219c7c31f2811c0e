use pam_linuxcampam::config::Configuration;
use pam_linuxcampam::utils::{is_valid_username, ICameraBackend};

/// The score thresholds before any file is read.
const DEFAULT_THRESHOLD: f32 = 0.363;
const DEFAULT_DETECTION_THRESHOLD: f32 = 0.9;

/// A machine without cameras.
struct NoCameras;

impl ICameraBackend for NoCameras {
    fn get_device_paths(&self) -> Vec<String> {
        Vec::new()
    }

    fn is_video_capture_device(&self, _path: &str) -> bool {
        false
    }

    fn get_pixel_formats(&self, _path: &str) -> Vec<u32> {
        Vec::new()
    }
}

fn loaded(content: &str) -> Configuration {
    let mut config = Configuration::new();
    assert!(config.load(content, &NoCameras));
    config
}

fn number_or(text: &Option<String>, default: f32) -> f32 {
    text.as_deref()
        .and_then(|t| t.parse::<f32>().ok())
        .unwrap_or(default)
}

fn threshold(config: &Configuration) -> f32 {
    number_or(&config.threshold_text, DEFAULT_THRESHOLD)
}

fn detection_threshold(config: &Configuration) -> f32 {
    number_or(&config.detection_threshold_text, DEFAULT_DETECTION_THRESHOLD)
}

#[test]
fn uses_defaults_when_config_missing() {
    // A missing file leaves the configuration as it was made.
    let config = Configuration::new();

    assert_eq!(threshold(&config), DEFAULT_THRESHOLD);
    assert_eq!(config.timeout_ms, Configuration::DEFAULT_TIMEOUT_MS);
    assert_eq!(config.lockout_attempts, Configuration::DEFAULT_LOCKOUT_ATTEMPTS);
    assert_eq!(config.gpu_throttle_ms, Configuration::DEFAULT_GPU_THROTTLE_MS);

    assert!(!config.provider_priority.is_empty());
    assert_eq!(config.provider_priority[0], "OpenCL");
}

#[test]
fn parses_valid_values() {
    let content = r#"
[General]
threshold = 0.75
detection_threshold = 0.85
timeout_ms = 5000
max_embeddings = 10

[Hardware]
provider_priority = CUDA,OpenVINO,OpenCL,CPU

[Security]
lockout_attempts = 3
lockout_duration_sec = 600

[Performance]
gpu_flush = off
gpu_throttle_ms = 50
model_keep_alive_sec = 120
"#;
    let config = loaded(content);

    assert_eq!(threshold(&config), 0.75);
    assert_eq!(detection_threshold(&config), 0.85);
    assert_eq!(config.timeout_ms, 5000);
    assert_eq!(config.max_embeddings, 10);

    assert_eq!(config.provider_priority.len(), 4);
    assert_eq!(config.provider_priority[0], "CUDA");
    assert_eq!(config.provider_priority[1], "OpenVINO");

    assert_eq!(config.lockout_attempts, 3);
    assert_eq!(config.lockout_duration_sec, 600);

    assert!(!config.gpu_flush);
    assert_eq!(config.gpu_throttle_ms, 50);
    assert_eq!(config.model_keep_alive_sec, 120);
}

#[test]
fn parses_proximity_config() {
    let content = r#"
[Hardware]
proximity_sensor_id = MY_SENSOR

[Proximity]
wake_enabled = true
wake_confidence_threshold = 70
lock_enabled = true
lock_confidence_threshold = 10
lock_timeout_seconds = 30
lock_command = custom_lock_cmd
"#;
    let config = loaded(content);

    assert_eq!(config.proximity_sensor_id, "MY_SENSOR");
    assert!(config.wake_enabled);
    assert_eq!(config.wake_confidence_threshold, 70);
    assert!(config.lock_enabled);
    assert_eq!(config.lock_confidence_threshold, 10);
    assert_eq!(config.lock_timeout_seconds, 30);
    assert_eq!(config.lock_command, "custom_lock_cmd");
}

#[test]
fn handles_partial_config() {
    let content = r#"
[General]
threshold = 0.65
"#;
    let config = loaded(content);

    assert_eq!(threshold(&config), 0.65);
    assert_eq!(config.lockout_attempts, Configuration::DEFAULT_LOCKOUT_ATTEMPTS);
}

#[test]
fn parses_logging_config() {
    let content = r#"
[General]
log_level = debug
log_file = /tmp/linuxcampam.log
"#;
    let config = loaded(content);

    assert_eq!(config.log_level, "debug");
    assert_eq!(config.log_file, "/tmp/linuxcampam.log");
}

#[test]
fn fallback_on_invalid_data() {
    let content = r#"
[General]
threshold = invalid_float
timeout_ms = invalid_int
[Security]
lockout_attempts = bad_number
"#;
    let config = loaded(content);

    assert_eq!(threshold(&config), DEFAULT_THRESHOLD);
    assert_eq!(config.lockout_attempts, Configuration::DEFAULT_LOCKOUT_ATTEMPTS);
}

#[test]
fn username_sanitization_algorithm() {
    assert!(is_valid_username("vlad"));
    assert!(is_valid_username("user.name"));
    assert!(!is_valid_username("../../etc/passwd"));
    assert!(!is_valid_username("user; rm -rf /"));
}
