use pam_linuxcampam::config::{AuthPolicy, Configuration, ProximitySensorMode};
use pam_linuxcampam::utils::ICameraBackend;

/// The score threshold before any file is read.
const DEFAULT_THRESHOLD: f32 = 0.363;
const DEFAULT_DETECTION_THRESHOLD: f32 = 0.9;

/// A machine without cameras.
struct NoCameras;

impl ICameraBackend for NoCameras {
    fn get_device_paths(&self) -> Vec<String> {
        Vec::new()
    }

    fn is_video_capture_device(&self, _path: &str) -> bool {
        false
    }

    fn get_pixel_formats(&self, _path: &str) -> Vec<u32> {
        Vec::new()
    }
}

fn load_config(ini: &str) -> Configuration {
    let mut config = Configuration::new();
    assert!(config.load(ini, &NoCameras));
    config
}

/// The threshold that a configuration's text gives: the number it reads as,
/// else the default.
fn number_or(text: &Option<String>, default: f32) -> f32 {
    text.as_deref()
        .and_then(|t| t.parse::<f32>().ok())
        .unwrap_or(default)
}

fn threshold(config: &Configuration) -> f32 {
    number_or(&config.threshold_text, DEFAULT_THRESHOLD)
}

fn detection_threshold(config: &Configuration) -> f32 {
    number_or(&config.detection_threshold_text, DEFAULT_DETECTION_THRESHOLD)
}

#[test]
fn fallback_from_auth_to_general() {
    let config = load_config(
        r#"
[General]
threshold=0.85
detection_threshold=0.95
timeout_ms=5000
auth_method=strict
max_embeddings=10
"#,
    );

    assert_eq!(threshold(&config), 0.85);
    assert_eq!(detection_threshold(&config), 0.95);
    assert_eq!(config.timeout_ms, 5000);
    assert_eq!(config.policy, AuthPolicy::StrictAll);
    assert_eq!(config.max_embeddings, 10);
}

#[test]
fn auth_overrides_general() {
    let config = load_config(
        r#"
[General]
threshold=0.5
detection_threshold=0.5
timeout_ms=1000
auth_method=lenient
max_embeddings=2

[Auth]
threshold=0.99
detection_threshold=0.99
timeout_ms=8000
policy=strict
max_embeddings=20
"#,
    );

    assert_eq!(threshold(&config), 0.99);
    assert_eq!(detection_threshold(&config), 0.99);
    assert_eq!(config.timeout_ms, 8000);
    assert_eq!(config.policy, AuthPolicy::StrictAll);
    assert_eq!(config.max_embeddings, 20);
}

#[test]
fn handles_malformed_numbers() {
    let config = load_config(
        r#"
[Auth]
threshold=bad_float
timeout_ms=not_an_int
max_embeddings=-invalid
"#,
    );

    assert_eq!(threshold(&config), DEFAULT_THRESHOLD);
    assert_eq!(config.timeout_ms, Configuration::DEFAULT_TIMEOUT_MS);
    assert_eq!(config.max_embeddings, Configuration::DEFAULT_MAX_EMBEDDINGS);
}

#[test]
fn proximity_sensor_settings() {
    let config = load_config(
        r#"
[Hardware]
proximity_sensor=enabled
proximity_sensor_id=TEST_ID
proximity_enforce=true

[Proximity]
wake_enabled=false
always_wake_on_presence_detected=false
wake_confidence_threshold=80
lock_enabled=true
lock_confidence_threshold=10
lock_timeout_seconds=5
lock_command=custom_lock
"#,
    );

    assert_eq!(config.proximity_sensor, ProximitySensorMode::Enabled);
    assert_eq!(config.proximity_sensor_id, "TEST_ID");
    assert!(config.proximity_enforce);

    assert!(!config.wake_enabled);
    assert!(!config.always_wake_on_presence_detected);
    assert_eq!(config.wake_confidence_threshold, 80);

    assert!(config.lock_enabled);
    assert_eq!(config.lock_confidence_threshold, 10);
    assert_eq!(config.lock_timeout_seconds, 5);
    assert_eq!(config.lock_command, "custom_lock");
}

#[test]
fn provider_priority_parsing() {
    let config = load_config(
        r#"
[Hardware]
provider_priority=TensorRT, CUDA, CPU
"#,
    );

    assert_eq!(config.provider_priority.len(), 3);
    assert_eq!(config.provider_priority[0], "TensorRT");
    assert_eq!(config.provider_priority[1], "CUDA");
    assert_eq!(config.provider_priority[2], "CPU");
}

#[test]
fn empty_provider_priority_uses_default() {
    let config = load_config(
        r#"
[Hardware]
provider_priority=
"#,
    );

    assert_eq!(config.provider_priority.len(), 2);
    assert_eq!(config.provider_priority[0], "OpenCL");
    assert_eq!(config.provider_priority[1], "CPU");
}

#[test]
fn explicit_camera_definitions() {
    let config = load_config(
        r#"
[Cameras]
names=cam1, cam2

[Camera.cam1]
path=/dev/video1
type=rgb
mandatory=true
min_brightness=10

[Camera.cam2]
path=/dev/video2
type=ir
enroll_hdr=true
enroll_averaging=true
enroll_average_frames=5
"#,
    );

    assert_eq!(config.camera_defs.len(), 2);

    assert_eq!(config.camera_defs[0].id, "cam1");
    assert_eq!(config.camera_defs[0].path, "/dev/video1");
    assert_eq!(config.camera_defs[0].cam_type, "rgb");
    assert!(config.camera_defs[0].mandatory);
    assert_eq!(config.camera_defs[0].min_brightness, 10);

    assert_eq!(config.camera_defs[1].id, "cam2");
    assert_eq!(config.camera_defs[1].path, "/dev/video2");
    assert_eq!(config.camera_defs[1].cam_type, "ir");
    assert!(!config.camera_defs[1].mandatory);
    assert_eq!(config.camera_defs[1].enroll_hdr, "true");
    assert_eq!(config.camera_defs[1].enroll_averaging, "true");
    assert_eq!(config.camera_defs[1].enroll_average_frames, 5);
}

#[test]
fn to_string_output_contains_key_elements() {
    let config = load_config(
        r#"
[General]
log_level=debug
[Auth]
policy=lenient
[Hardware]
proximity_sensor=disabled
"#,
    );

    let out = config.to_string_formatted("0.363", "0.9", "");
    assert!(out.contains("Log Level: debug"));
    assert!(out.contains("Lenient (Any Camera Match)"));
    assert!(out.contains("Proximity Sensor: disabled"));
}

#[test]
fn min_uid_parsing() {
    let config = load_config(
        r#"
[Security]
min_uid=2000
"#,
    );
    assert_eq!(config.min_uid, 2000);
}

#[test]
fn negative_min_uid_fallback() {
    let config = load_config(
        r#"
[Security]
min_uid=-5
"#,
    );
    assert_eq!(config.min_uid, pam_linuxcampam::DEFAULT_MIN_UID);
}

#[test]
fn performance_settings() {
    let config = load_config(
        r#"
[Performance]
gpu_flush=off
gpu_throttle_ms=50
model_keep_alive_sec=120
"#,
    );
    assert!(!config.gpu_flush);
    assert_eq!(config.gpu_throttle_ms, 50);
    assert_eq!(config.model_keep_alive_sec, 120);
}

#[test]
fn report_layout_is_exact() {
    let mut config = load_config(
        r#"
[Hardware]
camera_path_ir=/dev/video2
provider_priority=CUDA,CPU
"#,
    );
    config.timeout_ms = -7;
    let out = config.to_string_formatted("0.5", "0.9", "1.2");
    assert!(out.starts_with("=== Active Configuration ===\n\n[General]\n  Log Level: info\n  Threshold: 0.5\n"));
    assert!(out.contains("  Timeout: -7 ms\n"));
    assert!(out.contains("  Wake Enabled: true (Always on return: true, Threshold: 50%)\n"));
    assert!(out.contains("  Lock Enabled: false (Threshold: 5%, Timeout: 10s)\n"));
    assert!(out.contains("[Security]\n  Lockout Attempts: 5\n  Lockout Duration: 300 s\n\n"));
    assert!(out.contains("[Cameras] (1 active)\n  - ID: ir\n    Path: /dev/video2\n    Type: ir\n    Mandatory: Yes\n    Min Brightness: 0\n"));
    assert!(out.contains("    IR Emitter Version: 1.2\n\n"));
    assert!(out.ends_with("[Performance]\n  GPU Flush: On\n  GPU Throttle: 20 ms\n  Provider Priority: CUDA > CPU\n"));
}

#[test]
fn later_pair_wins_and_comments_are_skipped() {
    let config = load_config(
        "; comment\n# another\n[General]\nlog_level = warn\nlog_level = error\n  [ Auth ]  \n policy = 1fa \n",
    );
    assert_eq!(config.log_level, "error");
    assert_eq!(config.policy, AuthPolicy::LenientAny);
}
