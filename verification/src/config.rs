//! The daemon's configuration and how it is read from the INI file.
//!
//! Reading keeps every pair as `Section.key` (a later pair for the same key
//! wins), then resolves each setting with its fallbacks and defaults. The two
//! score thresholds are real numbers: their text is kept here and converted by
//! the caller.
use vstd::prelude::*;

use crate::constants::{CAMERA_RGB_WEIGHT, DEFAULT_MIN_BRIGHTNESS, DEFAULT_MIN_UID, IR_EMITTER_PATH, MODELS_DIR, USERS_DIR};
use crate::ini::{kv_get, kv_lookup, kv_view};
use crate::pam::pam_config::{split, split_trimmed};
use crate::text::{
    decimal, int_decimal,
    chars_eq_str, chars_of, copy_range, ends_with, find_char_index, find_char, has_suffix,
    lemma_find_char_found, parse_i32, parse_i32_spec, push_chars, push_decimal, push_int, push_str, split_chars,
    split_seq, string_from_chars, string_from_str, trim_chars, trim_seq, views,
};
use crate::utils::{camera_listing, detected_entries, enumerate_cameras, entries_view, ICameraBackend};

verus! {

#[derive(Debug, Clone, Copy, PartialEq, Eq, Structural)]
pub enum AuthPolicy {
    StrictAll,
    LenientAny,
    Adaptive,
}

#[derive(Debug, Clone, Copy, PartialEq, Eq, Structural)]
pub enum ProximitySensorMode {
    Auto,
    Enabled,
    Disabled,
}

/// One camera that authentication uses.
#[derive(Debug, Clone, PartialEq, Eq, Default)]
pub struct CameraDefinition {
    pub id: String,
    pub path: String,
    pub cam_type: String,
    pub min_brightness: i32,
    pub mandatory: bool,
    pub enroll_hdr: String,
    pub enroll_averaging: String,
    pub enroll_average_frames: i32,
}

/// A camera definition as plain values: id, path, kind, minimum brightness,
/// mandatory, enrolment HDR, enrolment averaging, enrolment frame count.
pub type CameraView = (Seq<char>, Seq<char>, Seq<char>, i32, bool, Seq<char>, Seq<char>, i32);

impl CameraDefinition {
    pub open spec fn view(&self) -> CameraView {
        (
            self.id@,
            self.path@,
            self.cam_type@,
            self.min_brightness,
            self.mandatory,
            self.enroll_hdr@,
            self.enroll_averaging@,
            self.enroll_average_frames,
        )
    }
}

pub open spec fn cameras_view(v: Seq<CameraDefinition>) -> Seq<CameraView> {
    Seq::new(v.len(), |i: int| v[i].view())
}

/// The daemon's settings.
#[derive(Debug, Clone)]
pub struct Configuration {
    /// The text of the configured match threshold, if one was configured.
    pub threshold_text: Option<String>,
    /// The text of the configured face detection threshold, if one was configured.
    pub detection_threshold_text: Option<String>,
    pub timeout_ms: i32,
    pub max_embeddings: i32,
    pub policy: AuthPolicy,
    pub camera_defs: Vec<CameraDefinition>,
    pub save_success: bool,
    pub save_fail: bool,
    pub log_dir: String,
    pub log_level: String,
    pub log_file: String,
    pub provider_priority: Vec<String>,
    pub model_keep_alive_sec: i32,
    pub enroll_hdr: String,
    pub enroll_averaging: bool,
    pub enroll_average_frames: i32,
    pub verify_averaging: bool,
    pub verify_average_frames: i32,
    pub proximity_sensor: ProximitySensorMode,
    pub proximity_sensor_id: String,
    pub proximity_enforce: bool,
    pub wake_enabled: bool,
    pub always_wake_on_presence_detected: bool,
    pub wake_confidence_threshold: i32,
    pub lock_enabled: bool,
    pub lock_confidence_threshold: i32,
    pub lock_timeout_seconds: i32,
    pub lock_command: String,
    pub users_dir: String,
    pub models_dir: String,
    pub ir_emitter_path: String,
    pub lockout_attempts: i32,
    pub lockout_duration_sec: i32,
    pub min_uid: u32,
    pub gpu_flush: bool,
    pub gpu_throttle_ms: i32,
    pub detection_model: Option<String>,
    pub recognition_model: Option<String>,
}

pub open spec fn opt_view(o: Option<String>) -> Option<Seq<char>> {
    match o {
        Some(s) => Some(s@),
        None => None,
    }
}

/// The provider order used when none is configured.
pub open spec fn default_providers() -> Seq<Seq<char>> {
    seq!["OpenCL"@, "CPU"@]
}

/// The settings before any file is read.
pub open spec fn is_default_config(c: &Configuration) -> bool {
    &&& c.threshold_text is None
    &&& c.detection_threshold_text is None
    &&& c.timeout_ms == 3000
    &&& c.max_embeddings == 5
    &&& c.policy == AuthPolicy::Adaptive
    &&& c.camera_defs@.len() == 0
    &&& !c.save_success
    &&& !c.save_fail
    &&& c.log_dir@ == "/var/log/linuxcampam/"@
    &&& c.log_level@ == "info"@
    &&& c.log_file@ == Seq::<char>::empty()
    &&& c.provider_priority.deep_view() == default_providers()
    &&& c.model_keep_alive_sec == 0
    &&& c.enroll_hdr@ == "auto"@
    &&& c.enroll_averaging
    &&& c.enroll_average_frames == 5
    &&& !c.verify_averaging
    &&& c.verify_average_frames == 3
    &&& c.proximity_sensor == ProximitySensorMode::Auto
    &&& c.proximity_sensor_id@ == "ITE8353"@
    &&& !c.proximity_enforce
    &&& c.wake_enabled
    &&& c.always_wake_on_presence_detected
    &&& c.wake_confidence_threshold == 50
    &&& !c.lock_enabled
    &&& c.lock_confidence_threshold == 5
    &&& c.lock_timeout_seconds == 10
    &&& c.lock_command@ == "loginctl lock-sessions"@
    &&& c.users_dir@ == USERS_DIR@
    &&& c.models_dir@ == MODELS_DIR@
    &&& c.ir_emitter_path@ == IR_EMITTER_PATH@
    &&& c.lockout_attempts == 5
    &&& c.lockout_duration_sec == 300
    &&& c.min_uid == DEFAULT_MIN_UID
    &&& c.gpu_flush
    &&& c.gpu_throttle_ms == 20
    &&& c.detection_model is None
    &&& c.recognition_model is None
}

/// The key under which a pair of `section` is kept: `section.key`, or `key`
/// outside any section.
pub open spec fn full_key(section: Seq<char>, key: Seq<char>) -> Seq<char> {
    if section.len() == 0 {
        key
    } else {
        section + seq!['.'] + key
    }
}

/// Reading state after some lines: the current section and the pairs so far.
pub open spec fn ini_state(lines: Seq<Seq<char>>) -> (Seq<char>, Seq<(Seq<char>, Seq<char>)>)
    decreases lines.len(),
{
    if lines.len() == 0 {
        (Seq::empty(), Seq::empty())
    } else {
        let (sec, kv) = ini_state(lines.drop_last());
        let t = trim_seq(lines.last());
        if t.len() == 0 || t[0] == ';' || t[0] == '#' {
            (sec, kv)
        } else if t[0] == '[' && t.last() == ']' {
            (trim_seq(t.subrange(1, t.len() - 1)), kv)
        } else {
            match find_char(t, '=') {
                Some(e) => (
                    sec,
                    kv.push(
                        (
                            full_key(sec, trim_seq(t.subrange(0, e))),
                            trim_seq(t.subrange(e + 1, t.len() as int)),
                        ),
                    ),
                ),
                None => (sec, kv),
            }
        }
    }
}

/// The pairs of an INI text, read line by line.
pub open spec fn ini_pairs(input: Seq<char>) -> Seq<(Seq<char>, Seq<char>)> {
    ini_state(split_seq(input, '\n')).1
}

/// Reads the pairs of an INI text: lines split at `\n`, trimmed; empty lines
/// and lines starting with `;` or `#` skipped; `[name]` opens a section;
/// `key = value` adds a pair under `section.key`.
pub fn parse_ini(input: &str) -> (r: Vec<(String, String)>)
    ensures
        kv_view(r@) == ini_pairs(input@),
{
    let chars = chars_of(input);
    let lines = split_chars(chars.as_slice(), '\n');
    let ghost lv = views(lines@);
    let mut section: Vec<char> = Vec::new();
    let mut kv: Vec<(String, String)> = Vec::new();
    let mut i: usize = 0;
    while i < lines.len()
        invariant
            i <= lines.len(),
            lv == views(lines@),
            (section@, kv_view(kv@)) == ini_state(lv.subrange(0, i as int)),
        decreases lines.len() - i,
    {
        assert(lv.subrange(0, i + 1).drop_last() == lv.subrange(0, i as int));
        assert(lv.subrange(0, i + 1).last() == lines@[i as int]@);
        let t = trim_chars(lines[i].as_slice());
        if t.len() == 0 || t[0] == ';' || t[0] == '#' {
        } else if t[0] == '[' && t[t.len() - 1] == ']' {
            assert(t@.last() == t@[t.len() - 1]);
            let inner = copy_range(t.as_slice(), 1, t.len() - 1);
            section = trim_chars(inner.as_slice());
        } else {
            assert(!(t@[0] == '[' && t@.last() == ']'));
            match find_char_index(t.as_slice(), '=') {
                Some(e) => {
                    proof {
                        lemma_find_char_found(t@, '=');
                    }
                    let kpart = copy_range(t.as_slice(), 0, e);
                    let vpart = copy_range(t.as_slice(), e + 1, t.len());
                    let key = trim_chars(kpart.as_slice());
                    let val = trim_chars(vpart.as_slice());
                    let mut fk = string_from_chars(section.as_slice());
                    if section.len() > 0 {
                        fk.push('.');
                    }
                    push_chars(&mut fk, key.as_slice());
                    assert(fk@ =~= full_key(section@, key@));
                    let ghost old_kv = kv_view(kv@);
                    kv.push((fk, string_from_chars(val.as_slice())));
                    assert(kv_view(kv@) =~= old_kv.push((full_key(section@, key@), val@)));
                },
                None => {},
            }
        }
        i = i + 1;
    }
    assert(lv.subrange(0, lines.len() as int) == lv);
    kv
}

/// The value of `k`, or `d` when it is absent.
pub open spec fn get_or(kv: Seq<(Seq<char>, Seq<char>)>, k: Seq<char>, d: Seq<char>) -> Seq<char> {
    match kv_lookup(kv, k) {
        Some(v) => v,
        None => d,
    }
}

/// Whether `k` is present.
pub open spec fn has_key(kv: Seq<(Seq<char>, Seq<char>)>, k: Seq<char>) -> bool {
    kv_lookup(kv, k) is Some
}

/// The value of `a` if non-empty, else that of `b` if non-empty.
pub open spec fn first_set(kv: Seq<(Seq<char>, Seq<char>)>, a: Seq<char>, b: Seq<char>) -> Option<Seq<char>> {
    if get_or(kv, a, Seq::empty()).len() > 0 {
        Some(get_or(kv, a, Seq::empty()))
    } else if get_or(kv, b, Seq::empty()).len() > 0 {
        Some(get_or(kv, b, Seq::empty()))
    } else {
        None
    }
}

/// An integer setting: the value that the text reads as, else `old`.
pub open spec fn int_or(text: Seq<char>, old: i32) -> i32 {
    match parse_i32_spec(text) {
        Some(v) => v,
        None => old,
    }
}

/// An integer setting that may be absent: the value its text reads as, else `old`.
pub open spec fn opt_int_or(text: Option<Seq<char>>, old: i32) -> i32 {
    match text {
        Some(t) => int_or(t, old),
        None => old,
    }
}

/// The authentication policy that a method name selects.
pub open spec fn policy_of(m: Seq<char>) -> AuthPolicy {
    if m == "strict_all"@ || m == "2fa"@ || m == "strict"@ {
        AuthPolicy::StrictAll
    } else if m == "lenient_any"@ || m == "1fa"@ || m == "lenient"@ {
        AuthPolicy::LenientAny
    } else {
        AuthPolicy::Adaptive
    }
}

/// The configured policy name: `Auth.policy`; else `General.policy` when
/// present, else `General.auth_method`.
pub open spec fn policy_name(kv: Seq<(Seq<char>, Seq<char>)>) -> Seq<char> {
    let m = get_or(kv, "Auth.policy"@, Seq::empty());
    if m.len() > 0 {
        m
    } else if has_key(kv, "General.policy"@) {
        get_or(kv, "General.policy"@, Seq::empty())
    } else {
        get_or(kv, "General.auth_method"@, Seq::empty())
    }
}

/// The proximity sensor mode that a setting names.
pub open spec fn prox_mode_of(s: Seq<char>) -> ProximitySensorMode {
    if s == "true"@ || s == "on"@ || s == "enabled"@ {
        ProximitySensorMode::Enabled
    } else if s == "false"@ || s == "off"@ || s == "disabled"@ {
        ProximitySensorMode::Disabled
    } else {
        ProximitySensorMode::Auto
    }
}

/// The minimum user id: `Security.min_uid`, else `General.min_uid`, read as a
/// non-negative `i32`; the default otherwise.
pub open spec fn min_uid_of(kv: Seq<(Seq<char>, Seq<char>)>) -> u32 {
    let v = opt_int_or(first_set(kv, "Security.min_uid"@, "General.min_uid"@), DEFAULT_MIN_UID as i32);
    if v < 0 {
        DEFAULT_MIN_UID
    } else {
        v as u32
    }
}

/// The key `Camera.<id>.<field>`.
pub open spec fn camera_key(id: Seq<char>, field: Seq<char>) -> Seq<char> {
    "Camera."@ + id + seq!['.'] + field
}

/// A camera listed in `Cameras.names`, with its `Camera.<id>.*` settings.
pub open spec fn named_camera(kv: Seq<(Seq<char>, Seq<char>)>, id: Seq<char>) -> CameraView {
    (
        id,
        get_or(kv, camera_key(id, "path"@), "/dev/video0"@),
        get_or(kv, camera_key(id, "type"@), "generic"@),
        int_or(get_or(kv, camera_key(id, "min_brightness"@), "0"@), 0),
        get_or(kv, camera_key(id, "mandatory"@), "false"@) == "true"@,
        get_or(kv, camera_key(id, "enroll_hdr"@), Seq::empty()),
        get_or(kv, camera_key(id, "enroll_averaging"@), Seq::empty()),
        int_or(get_or(kv, camera_key(id, "enroll_average_frames"@), "0"@), 0),
    )
}

/// A camera with the given id, path and kind and no enrolment settings.
pub open spec fn plain_camera(id: Seq<char>, path: Seq<char>, kind: Seq<char>, min_brightness: i32, mandatory: bool) -> CameraView {
    (id, path, kind, min_brightness, mandatory, Seq::empty(), Seq::empty(), 0)
}

/// The path of the first detected camera of one of the given kinds that has a
/// non-empty path.
pub open spec fn first_path_of(d: Seq<(Seq<char>, Seq<char>)>, k1: Seq<char>, k2: Seq<char>) -> Seq<char>
    decreases d.len(),
{
    if d.len() == 0 {
        Seq::empty()
    } else if (d[0].1 == k1 || d[0].1 == k2) && d[0].0.len() > 0 {
        d[0].0
    } else {
        first_path_of(d.drop_first(), k1, k2)
    }
}

/// The cameras chosen from the detected ones: an IR and an RGB camera when
/// both are there (the RGB one optional); else the one that is there; else the
/// first device as a generic camera.
pub open spec fn detected_cameras(d: Seq<(Seq<char>, Seq<char>)>) -> Seq<CameraView> {
    let ir = first_path_of(d, "ir"@, "ir"@);
    let rgb = first_path_of(d, "rgb"@, "generic"@);
    if d.len() == 0 {
        Seq::empty()
    } else if ir.len() > 0 && rgb.len() > 0 {
        seq![
            plain_camera("ir"@, ir, "ir"@, 0, true),
            plain_camera("rgb"@, rgb, "rgb"@, CAMERA_RGB_WEIGHT, false),
        ]
    } else if rgb.len() > 0 {
        seq![plain_camera("rgb"@, rgb, "rgb"@, 0, true)]
    } else if ir.len() > 0 {
        seq![plain_camera("ir"@, ir, "ir"@, 0, true)]
    } else {
        seq![plain_camera("cam0"@, d[0].0, "generic"@, 0, true)]
    }
}

/// Whether the cameras are to be detected: no camera names and no camera paths
/// are configured.
pub open spec fn needs_detection(kv: Seq<(Seq<char>, Seq<char>)>) -> bool {
    get_or(kv, "Cameras.names"@, Seq::empty()).len() == 0 && get_or(kv, "Hardware.camera_path_ir"@, Seq::empty()).len() == 0
        && get_or(kv, "Hardware.camera_path_rgb"@, Seq::empty()).len() == 0
}

/// The cameras that the settings give, with `d` the detected devices.
pub open spec fn cameras_of(kv: Seq<(Seq<char>, Seq<char>)>, d: Seq<(Seq<char>, Seq<char>)>) -> Seq<CameraView> {
    let names = get_or(kv, "Cameras.names"@, Seq::empty());
    if names.len() > 0 {
        let ids = split_trimmed(names, ',');
        Seq::new(ids.len(), |i: int| named_camera(kv, ids[i]))
    } else {
        let ir = get_or(kv, "Hardware.camera_path_ir"@, Seq::empty());
        let rgb = get_or(kv, "Hardware.camera_path_rgb"@, Seq::empty());
        if ir.len() > 0 || rgb.len() > 0 {
            let mb = int_or(get_or(kv, "Hardware.min_brightness"@, "40"@), DEFAULT_MIN_BRIGHTNESS);
            let a: Seq<CameraView> = if ir.len() > 0 {
                seq![plain_camera("ir"@, ir, "ir"@, 0, true)]
            } else {
                Seq::empty()
            };
            let b: Seq<CameraView> = if rgb.len() > 0 {
                seq![plain_camera("rgb"@, rgb, "rgb"@, mb, false)]
            } else {
                Seq::empty()
            };
            a + b
        } else {
            detected_cameras(d)
        }
    }
}

/// `new` is `old` with the settings of `kv` applied, `d` being the detected cameras.
pub open spec fn settings_applied(
    old: &Configuration,
    new: &Configuration,
    kv: Seq<(Seq<char>, Seq<char>)>,
    d: Seq<(Seq<char>, Seq<char>)>,
) -> bool {
    &&& opt_view(new.threshold_text) == match first_set(kv, "Auth.threshold"@, "General.threshold"@) {
        Some(t) => Some(t),
        None => opt_view(old.threshold_text),
    }
    &&& opt_view(new.detection_threshold_text) == match first_set(
        kv,
        "Auth.detection_threshold"@,
        "General.detection_threshold"@,
    ) {
        Some(t) => Some(t),
        None => opt_view(old.detection_threshold_text),
    }
    &&& new.timeout_ms == opt_int_or(first_set(kv, "Auth.timeout_ms"@, "General.timeout_ms"@), old.timeout_ms)
    &&& new.log_level@ == get_or(kv, "General.log_level"@, "info"@)
    &&& new.log_file@ == get_or(kv, "General.log_file"@, Seq::empty())
    &&& new.policy == policy_of(policy_name(kv))
    &&& new.users_dir@ == get_or(kv, "Paths.users_dir"@, old.users_dir@)
    &&& new.models_dir@ == get_or(kv, "Paths.models_dir"@, old.models_dir@)
    &&& new.ir_emitter_path@ == get_or(kv, "Paths.ir_emitter_path"@, old.ir_emitter_path@)
    &&& opt_view(new.detection_model) == match kv_lookup(kv, "Paths.detection_model"@) {
        Some(v) => Some(v),
        None => opt_view(old.detection_model),
    }
    &&& opt_view(new.recognition_model) == match kv_lookup(kv, "Paths.recognition_model"@) {
        Some(v) => Some(v),
        None => opt_view(old.recognition_model),
    }
    &&& new.max_embeddings == opt_int_or(
        first_set(kv, "Auth.max_embeddings"@, "General.max_embeddings"@),
        old.max_embeddings,
    )
    &&& new.enroll_hdr@ == get_or(kv, "Capture.enroll_hdr"@, old.enroll_hdr@)
    &&& new.enroll_averaging == match kv_lookup(kv, "Capture.enroll_averaging"@) {
        Some(v) => v == "on"@ || v == "true"@,
        None => old.enroll_averaging,
    }
    &&& new.enroll_average_frames == int_or(get_or(kv, "Capture.enroll_average_frames"@, "5"@), old.enroll_average_frames)
    &&& new.verify_averaging == match kv_lookup(kv, "Capture.verify_averaging"@) {
        Some(v) => v == "on"@ || v == "true"@,
        None => old.verify_averaging,
    }
    &&& new.verify_average_frames == int_or(get_or(kv, "Capture.verify_average_frames"@, "3"@), old.verify_average_frames)
    &&& cameras_view(new.camera_defs@) == cameras_of(kv, d)
    &&& new.provider_priority.deep_view() == if split_trimmed(get_or(kv, "Hardware.provider_priority"@, Seq::empty()), ',').len() > 0 {
        split_trimmed(get_or(kv, "Hardware.provider_priority"@, Seq::empty()), ',')
    } else {
        default_providers()
    }
    &&& new.proximity_sensor == prox_mode_of(get_or(kv, "Hardware.proximity_sensor"@, "auto"@))
    &&& new.proximity_sensor_id@ == get_or(kv, "Hardware.proximity_sensor_id"@, "ITE8353"@)
    &&& new.proximity_enforce == (get_or(kv, "Hardware.proximity_enforce"@, "false"@) == "true"@)
    &&& new.wake_enabled == (get_or(kv, "Proximity.wake_enabled"@, "true"@) == "true"@)
    &&& new.always_wake_on_presence_detected == (get_or(kv, "Proximity.always_wake_on_presence_detected"@, "true"@) == "true"@)
    &&& new.wake_confidence_threshold == int_or(get_or(kv, "Proximity.wake_confidence_threshold"@, "50"@), old.wake_confidence_threshold)
    &&& new.lock_enabled == (get_or(kv, "Proximity.lock_enabled"@, "false"@) == "true"@)
    &&& new.lock_confidence_threshold == int_or(get_or(kv, "Proximity.lock_confidence_threshold"@, "5"@), old.lock_confidence_threshold)
    &&& new.lock_timeout_seconds == int_or(get_or(kv, "Proximity.lock_timeout_seconds"@, "10"@), old.lock_timeout_seconds)
    &&& new.lock_command@ == get_or(kv, "Proximity.lock_command"@, "loginctl lock-sessions"@)
    &&& new.save_success == (get_or(kv, "Storage.save_success_images"@, "false"@) == "true"@)
    &&& new.save_fail == (get_or(kv, "Storage.save_fail_images"@, "false"@) == "true"@)
    &&& new.model_keep_alive_sec == int_or(get_or(kv, "Performance.model_keep_alive_sec"@, "0"@), old.model_keep_alive_sec)
    &&& new.lockout_attempts == int_or(get_or(kv, "Security.lockout_attempts"@, "5"@), old.lockout_attempts)
    &&& new.lockout_duration_sec == int_or(get_or(kv, "Security.lockout_duration_sec"@, "300"@), old.lockout_duration_sec)
    &&& new.min_uid == min_uid_of(kv)
    &&& new.gpu_flush == (get_or(kv, "Performance.gpu_flush"@, "on"@) == "on"@)
    &&& new.gpu_throttle_ms == int_or(get_or(kv, "Performance.gpu_throttle_ms"@, "20"@), old.gpu_throttle_ms)
    &&& new.log_dir@ == old.log_dir@
}

fn lookup(kv: &Vec<(String, String)>, key: &str) -> (r: Option<Vec<char>>)
    ensures
        match r {
            Some(v) => kv_lookup(kv_view(kv@), key@) == Some(v@),
            None => kv_lookup(kv_view(kv@), key@) is None,
        },
{
    let k = chars_of(key);
    match kv_get(kv, k.as_slice()) {
        Some(s) => Some(chars_of(s.as_str())),
        None => None,
    }
}

fn lookup_or(kv: &Vec<(String, String)>, key: &str, default: &str) -> (r: Vec<char>)
    ensures
        r@ == get_or(kv_view(kv@), key@, default@),
{
    match lookup(kv, key) {
        Some(v) => v,
        None => chars_of(default),
    }
}

fn first_set_of(kv: &Vec<(String, String)>, a: &str, b: &str) -> (r: Option<Vec<char>>)
    ensures
        match r {
            Some(v) => first_set(kv_view(kv@), a@, b@) == Some(v@),
            None => first_set(kv_view(kv@), a@, b@) is None,
        },
{
    let x = lookup_or(kv, a, "");
    proof {
        reveal_strlit("");
    }
    if x.len() > 0 {
        return Some(x);
    }
    let y = lookup_or(kv, b, "");
    if y.len() > 0 {
        Some(y)
    } else {
        None
    }
}

fn int_setting(text: &[char], old: i32) -> (r: i32)
    ensures
        r == int_or(text@, old),
{
    match parse_i32(text) {
        Some(v) => v,
        None => old,
    }
}

fn opt_int_setting(text: Option<Vec<char>>, old: i32) -> (r: i32)
    ensures
        r == opt_int_or(
            match text {
                Some(t) => Some(t@),
                None => None,
            },
            old,
        ),
{
    match text {
        Some(t) => int_setting(t.as_slice(), old),
        None => old,
    }
}

fn is_text(v: &[char], t: &str) -> (r: bool)
    ensures
        r == (v@ == t@),
{
    chars_eq_str(v, t)
}

fn camera_key_string(id: &[char], field: &str) -> (r: String)
    ensures
        r@ == camera_key(id@, field@),
{
    let mut k = string_from_str("Camera.");
    push_chars(&mut k, id);
    k.push('.');
    push_str(&mut k, field);
    k
}

fn camera_lookup_or(kv: &Vec<(String, String)>, id: &[char], field: &str, default: &str) -> (r: Vec<char>)
    ensures
        r@ == get_or(kv_view(kv@), camera_key(id@, field@), default@),
{
    let k = camera_key_string(id, field);
    lookup_or(kv, k.as_str(), default)
}

fn named_camera_def(kv: &Vec<(String, String)>, id: &[char]) -> (r: CameraDefinition)
    ensures
        r.view() == named_camera(kv_view(kv@), id@),
{
    let path = camera_lookup_or(kv, id, "path", "/dev/video0");
    let kind = camera_lookup_or(kv, id, "type", "generic");
    let mb = camera_lookup_or(kv, id, "min_brightness", "0");
    let mand = camera_lookup_or(kv, id, "mandatory", "false");
    let hdr = camera_lookup_or(kv, id, "enroll_hdr", "");
    let avg = camera_lookup_or(kv, id, "enroll_averaging", "");
    let frames = camera_lookup_or(kv, id, "enroll_average_frames", "0");
    proof {
        reveal_strlit("");
    }
    CameraDefinition {
        id: string_from_chars(id),
        path: string_from_chars(path.as_slice()),
        cam_type: string_from_chars(kind.as_slice()),
        min_brightness: int_setting(mb.as_slice(), 0),
        mandatory: is_text(mand.as_slice(), "true"),
        enroll_hdr: string_from_chars(hdr.as_slice()),
        enroll_averaging: string_from_chars(avg.as_slice()),
        enroll_average_frames: int_setting(frames.as_slice(), 0),
    }
}

fn plain_camera_def(id: &str, path: &[char], kind: &str, min_brightness: i32, mandatory: bool) -> (r: CameraDefinition)
    ensures
        r.view() == plain_camera(id@, path@, kind@, min_brightness, mandatory),
{
    CameraDefinition {
        id: string_from_str(id),
        path: string_from_chars(path),
        cam_type: string_from_str(kind),
        min_brightness,
        mandatory,
        enroll_hdr: String::new(),
        enroll_averaging: String::new(),
        enroll_average_frames: 0,
    }
}

fn push_camera(v: &mut Vec<CameraDefinition>, c: CameraDefinition)
    ensures
        cameras_view(final(v)@) == cameras_view(old(v)@).push(c.view()),
{
    let ghost old_v = cameras_view(v@);
    let ghost cv = c.view();
    v.push(c);
    assert(cameras_view(v@) =~= old_v.push(cv));
}

fn first_path_in(d: &Vec<(String, String)>, k1: &str, k2: &str) -> (r: Vec<char>)
    ensures
        r@ == first_path_of(entries_view(d@), k1@, k2@),
{
    let ghost dv = entries_view(d@);
    let mut i: usize = 0;
    assert(dv.subrange(0, dv.len() as int) == dv);
    while i < d.len()
        invariant
            i <= d.len(),
            dv == entries_view(d@),
            first_path_of(dv, k1@, k2@) == first_path_of(dv.subrange(i as int, dv.len() as int), k1@, k2@),
        decreases d.len() - i,
    {
        assert(dv.subrange(i as int, dv.len() as int).drop_first() == dv.subrange(i + 1, dv.len() as int));
        assert(dv.subrange(i as int, dv.len() as int)[0] == dv[i as int]);
        let kind = chars_of(d[i].1.as_str());
        let path = chars_of(d[i].0.as_str());
        if (is_text(kind.as_slice(), k1) || is_text(kind.as_slice(), k2)) && path.len() > 0 {
            return path;
        }
        i = i + 1;
    }
    Vec::new()
}

/// The cameras chosen from the detected devices.
pub fn cameras_from_detected(d: &Vec<(String, String)>) -> (r: Vec<CameraDefinition>)
    ensures
        cameras_view(r@) == detected_cameras(entries_view(d@)),
{
    let ir = first_path_in(d, "ir", "ir");
    let rgb = first_path_in(d, "rgb", "generic");
    let mut out: Vec<CameraDefinition> = Vec::new();
    assert(cameras_view(out@) =~= Seq::<CameraView>::empty());
    if d.len() == 0 {
        return out;
    }
    if ir.len() > 0 && rgb.len() > 0 {
        push_camera(&mut out, plain_camera_def("ir", ir.as_slice(), "ir", 0, true));
        push_camera(&mut out, plain_camera_def("rgb", rgb.as_slice(), "rgb", CAMERA_RGB_WEIGHT, false));
    } else if rgb.len() > 0 {
        push_camera(&mut out, plain_camera_def("rgb", rgb.as_slice(), "rgb", 0, true));
    } else if ir.len() > 0 {
        push_camera(&mut out, plain_camera_def("ir", ir.as_slice(), "ir", 0, true));
    } else {
        let p = chars_of(d[0].0.as_str());
        assert(entries_view(d@)[0].0 == p@);
        push_camera(&mut out, plain_camera_def("cam0", p.as_slice(), "generic", 0, true));
    }
    out
}

/// The cameras that the settings give, with `detected` the detected devices.
pub fn cameras_from_settings(kv: &Vec<(String, String)>, detected: &Vec<(String, String)>) -> (r: Vec<CameraDefinition>)
    ensures
        cameras_view(r@) == cameras_of(kv_view(kv@), entries_view(detected@)),
{
    let ghost kvv = kv_view(kv@);
    let names = lookup_or(kv, "Cameras.names", "");
    proof {
        reveal_strlit("");
    }
    let mut out: Vec<CameraDefinition> = Vec::new();
    if names.len() > 0 {
        let ns = string_from_chars(names.as_slice());
        let ids = split(ns.as_str(), ',');
        let ghost idv = ids.deep_view();
        let mut i: usize = 0;
        while i < ids.len()
            invariant
                i <= ids.len(),
                idv == ids.deep_view(),
                kvv == kv_view(kv@),
                cameras_view(out@) == Seq::new(i as nat, |j: int| named_camera(kvv, idv[j])),
            decreases ids.len() - i,
        {
            let id = chars_of(ids[i].as_str());
            let c = named_camera_def(kv, id.as_slice());
            let ghost old_out = cameras_view(out@);
            push_camera(&mut out, c);
            assert(cameras_view(out@) =~= Seq::new((i + 1) as nat, |j: int| named_camera(kvv, idv[j])));
            i = i + 1;
        }
        return out;
    }
    let ir = lookup_or(kv, "Hardware.camera_path_ir", "");
    let rgb = lookup_or(kv, "Hardware.camera_path_rgb", "");
    if ir.len() > 0 || rgb.len() > 0 {
        if ir.len() > 0 {
            push_camera(&mut out, plain_camera_def("ir", ir.as_slice(), "ir", 0, true));
        }
        if rgb.len() > 0 {
            let mbt = lookup_or(kv, "Hardware.min_brightness", "40");
            let mb = int_setting(mbt.as_slice(), DEFAULT_MIN_BRIGHTNESS);
            push_camera(&mut out, plain_camera_def("rgb", rgb.as_slice(), "rgb", mb, false));
        }
        proof {
            let a: Seq<CameraView> = if ir@.len() > 0 {
                seq![plain_camera("ir"@, ir@, "ir"@, 0, true)]
            } else {
                Seq::empty()
            };
            let mb = int_or(get_or(kvv, "Hardware.min_brightness"@, "40"@), DEFAULT_MIN_BRIGHTNESS);
            let b: Seq<CameraView> = if rgb@.len() > 0 {
                seq![plain_camera("rgb"@, rgb@, "rgb"@, mb, false)]
            } else {
                Seq::empty()
            };
            assert(cameras_view(out@) =~= a + b);
        }
        return out;
    }
    cameras_from_detected(detected)
}

fn string_opt(v: Option<Vec<char>>) -> (r: Option<String>)
    ensures
        opt_view(r) == match v {
            Some(t) => Some(t@),
            None => None,
        },
{
    match v {
        Some(t) => Some(string_from_chars(t.as_slice())),
        None => None,
    }
}

fn policy_from(m: &[char]) -> (p: AuthPolicy)
    ensures
        p == policy_of(m@),
{
    if is_text(m, "strict_all") || is_text(m, "2fa") || is_text(m, "strict") {
        AuthPolicy::StrictAll
    } else if is_text(m, "lenient_any") || is_text(m, "1fa") || is_text(m, "lenient") {
        AuthPolicy::LenientAny
    } else {
        AuthPolicy::Adaptive
    }
}

fn prox_mode_from(s: &[char]) -> (p: ProximitySensorMode)
    ensures
        p == prox_mode_of(s@),
{
    if is_text(s, "true") || is_text(s, "on") || is_text(s, "enabled") {
        ProximitySensorMode::Enabled
    } else if is_text(s, "false") || is_text(s, "off") || is_text(s, "disabled") {
        ProximitySensorMode::Disabled
    } else {
        ProximitySensorMode::Auto
    }
}

fn flag(kv: &Vec<(String, String)>, key: &str, default: &str, on: &str) -> (r: bool)
    ensures
        r == (get_or(kv_view(kv@), key@, default@) == on@),
{
    let v = lookup_or(kv, key, default);
    is_text(v.as_slice(), on)
}

fn int_key(kv: &Vec<(String, String)>, key: &str, default: &str, old: i32) -> (r: i32)
    ensures
        r == int_or(get_or(kv_view(kv@), key@, default@), old),
{
    let v = lookup_or(kv, key, default);
    int_setting(v.as_slice(), old)
}

fn text_key(kv: &Vec<(String, String)>, key: &str, default: &str) -> (r: String)
    ensures
        r@ == get_or(kv_view(kv@), key@, default@),
{
    let v = lookup_or(kv, key, default);
    string_from_chars(v.as_slice())
}

fn keep_or_set(kv: &Vec<(String, String)>, key: &str, old: &String) -> (r: String)
    ensures
        r@ == get_or(kv_view(kv@), key@, old@),
{
    match lookup(kv, key) {
        Some(v) => string_from_chars(v.as_slice()),
        None => {
            let c = chars_of(old.as_str());
            string_from_chars(c.as_slice())
        },
    }
}

fn keep_or_set_opt(kv: &Vec<(String, String)>, key: &str, old: &Option<String>) -> (r: Option<String>)
    ensures
        opt_view(r) == match kv_lookup(kv_view(kv@), key@) {
            Some(v) => Some(v),
            None => opt_view(*old),
        },
{
    match lookup(kv, key) {
        Some(v) => Some(string_from_chars(v.as_slice())),
        None => match old {
            Some(o) => {
                let c = chars_of(o.as_str());
                Some(string_from_chars(c.as_slice()))
            },
            None => None,
        },
    }
}

fn averaging_flag(kv: &Vec<(String, String)>, key: &str, old: bool) -> (r: bool)
    ensures
        r == match kv_lookup(kv_view(kv@), key@) {
            Some(v) => v == "on"@ || v == "true"@,
            None => old,
        },
{
    match lookup(kv, key) {
        Some(v) => is_text(v.as_slice(), "on") || is_text(v.as_slice(), "true"),
        None => old,
    }
}

fn default_provider_list() -> (r: Vec<String>)
    ensures
        r.deep_view() == default_providers(),
{
    let mut v: Vec<String> = Vec::new();
    v.push(string_from_str("OpenCL"));
    v.push(string_from_str("CPU"));
    assert(v.deep_view() =~= default_providers());
    v
}

fn clone_opt(o: &Option<String>) -> (r: Option<String>)
    ensures
        opt_view(r) == opt_view(*o),
{
    match o {
        Some(t) => {
            let c = chars_of(t.as_str());
            Some(string_from_chars(c.as_slice()))
        },
        None => None,
    }
}

fn policy_setting(kv: &Vec<(String, String)>) -> (p: AuthPolicy)
    ensures
        p == policy_of(policy_name(kv_view(kv@))),
{
    proof {
        reveal_strlit("");
        assert(""@ =~= Seq::<char>::empty());
    }
    let m1 = lookup_or(kv, "Auth.policy", "");
    let method = if m1.len() > 0 {
        m1
    } else if lookup(kv, "General.policy").is_some() {
        lookup_or(kv, "General.policy", "")
    } else {
        lookup_or(kv, "General.auth_method", "")
    };
    policy_from(method.as_slice())
}

fn provider_setting(kv: &Vec<(String, String)>) -> (r: Vec<String>)
    ensures
        r.deep_view() == if split_trimmed(get_or(kv_view(kv@), "Hardware.provider_priority"@, Seq::empty()), ',').len() > 0 {
            split_trimmed(get_or(kv_view(kv@), "Hardware.provider_priority"@, Seq::empty()), ',')
        } else {
            default_providers()
        },
{
    proof {
        reveal_strlit("");
    }
    let ps = text_key(kv, "Hardware.provider_priority", "");
    let providers = split(ps.as_str(), ',');
    if providers.len() > 0 {
        providers
    } else {
        default_provider_list()
    }
}

fn min_uid_setting(kv: &Vec<(String, String)>) -> (r: u32)
    ensures
        r == min_uid_of(kv_view(kv@)),
{
    let uid = opt_int_setting(first_set_of(kv, "Security.min_uid", "General.min_uid"), 1000);
    if uid < 0 {
        DEFAULT_MIN_UID
    } else {
        uid as u32
    }
}

impl Configuration {
    pub const DEFAULT_TIMEOUT_MS: i32 = 3000;

    pub const DEFAULT_MAX_EMBEDDINGS: i32 = 5;

    pub const DEFAULT_ENROLL_AVG_FRAMES: i32 = 5;

    pub const DEFAULT_VERIFY_AVG_FRAMES: i32 = 3;

    pub const DEFAULT_LOCKOUT_ATTEMPTS: i32 = 5;

    pub const DEFAULT_LOCKOUT_DURATION_SEC: i32 = 300;

    pub const DEFAULT_GPU_THROTTLE_MS: i32 = 20;

    pub const DEFAULT_WAKE_CONFIDENCE_THRESHOLD: i32 = 50;

    pub const DEFAULT_LOCK_CONFIDENCE_THRESHOLD: i32 = 5;

    pub const DEFAULT_LOCK_TIMEOUT_SECONDS: i32 = 10;

    /// The settings before any file is read.
    pub fn new() -> (c: Self)
        ensures
            is_default_config(&c),
    {
        Configuration {
            threshold_text: None,
            detection_threshold_text: None,
            timeout_ms: 3000,
            max_embeddings: 5,
            policy: AuthPolicy::Adaptive,
            camera_defs: Vec::new(),
            save_success: false,
            save_fail: false,
            log_dir: string_from_str("/var/log/linuxcampam/"),
            log_level: string_from_str("info"),
            log_file: String::new(),
            provider_priority: default_provider_list(),
            model_keep_alive_sec: 0,
            enroll_hdr: string_from_str("auto"),
            enroll_averaging: true,
            enroll_average_frames: 5,
            verify_averaging: false,
            verify_average_frames: 3,
            proximity_sensor: ProximitySensorMode::Auto,
            proximity_sensor_id: string_from_str("ITE8353"),
            proximity_enforce: false,
            wake_enabled: true,
            always_wake_on_presence_detected: true,
            wake_confidence_threshold: 50,
            lock_enabled: false,
            lock_confidence_threshold: 5,
            lock_timeout_seconds: 10,
            lock_command: string_from_str("loginctl lock-sessions"),
            users_dir: string_from_str(USERS_DIR),
            models_dir: string_from_str(MODELS_DIR),
            ir_emitter_path: string_from_str(IR_EMITTER_PATH),
            lockout_attempts: 5,
            lockout_duration_sec: 300,
            min_uid: DEFAULT_MIN_UID,
            gpu_flush: true,
            gpu_throttle_ms: 20,
            detection_model: None,
            recognition_model: None,
        }
    }

    /// Applies the pairs `kv` of a settings file, with `detected` the devices
    /// found when the file names no camera.
    pub fn apply(&mut self, kv: &Vec<(String, String)>, detected: &Vec<(String, String)>)
        ensures
            settings_applied(old(self), final(self), kv_view(kv@), entries_view(detected@)),
    {
        proof {
            reveal_strlit("");
            assert(""@ =~= Seq::<char>::empty());
        }
        let threshold_text = match first_set_of(kv, "Auth.threshold", "General.threshold") {
            Some(t) => Some(string_from_chars(t.as_slice())),
            None => clone_opt(&self.threshold_text),
        };
        let detection_threshold_text = match first_set_of(kv, "Auth.detection_threshold", "General.detection_threshold") {
            Some(t) => Some(string_from_chars(t.as_slice())),
            None => clone_opt(&self.detection_threshold_text),
        };
        let timeout_ms = opt_int_setting(first_set_of(kv, "Auth.timeout_ms", "General.timeout_ms"), self.timeout_ms);
        let log_level = text_key(kv, "General.log_level", "info");
        let log_file = text_key(kv, "General.log_file", "");
        let policy = policy_setting(kv);
        let users_dir = keep_or_set(kv, "Paths.users_dir", &self.users_dir);
        let models_dir = keep_or_set(kv, "Paths.models_dir", &self.models_dir);
        let ir_emitter_path = keep_or_set(kv, "Paths.ir_emitter_path", &self.ir_emitter_path);
        let detection_model = keep_or_set_opt(kv, "Paths.detection_model", &self.detection_model);
        let recognition_model = keep_or_set_opt(kv, "Paths.recognition_model", &self.recognition_model);
        let max_embeddings = opt_int_setting(first_set_of(kv, "Auth.max_embeddings", "General.max_embeddings"), self.max_embeddings);
        let enroll_hdr = keep_or_set(kv, "Capture.enroll_hdr", &self.enroll_hdr);
        let enroll_averaging = averaging_flag(kv, "Capture.enroll_averaging", self.enroll_averaging);
        let enroll_average_frames = int_key(kv, "Capture.enroll_average_frames", "5", self.enroll_average_frames);
        let verify_averaging = averaging_flag(kv, "Capture.verify_averaging", self.verify_averaging);
        let verify_average_frames = int_key(kv, "Capture.verify_average_frames", "3", self.verify_average_frames);
        let camera_defs = cameras_from_settings(kv, detected);
        let provider_priority = provider_setting(kv);
        let prox = lookup_or(kv, "Hardware.proximity_sensor", "auto");
        let proximity_sensor = prox_mode_from(prox.as_slice());
        let proximity_sensor_id = text_key(kv, "Hardware.proximity_sensor_id", "ITE8353");
        let proximity_enforce = flag(kv, "Hardware.proximity_enforce", "false", "true");
        let wake_enabled = flag(kv, "Proximity.wake_enabled", "true", "true");
        let always_wake = flag(kv, "Proximity.always_wake_on_presence_detected", "true", "true");
        let wake_confidence_threshold = int_key(kv, "Proximity.wake_confidence_threshold", "50", self.wake_confidence_threshold);
        let lock_enabled = flag(kv, "Proximity.lock_enabled", "false", "true");
        let lock_confidence_threshold = int_key(kv, "Proximity.lock_confidence_threshold", "5", self.lock_confidence_threshold);
        let lock_timeout_seconds = int_key(kv, "Proximity.lock_timeout_seconds", "10", self.lock_timeout_seconds);
        let lock_command = text_key(kv, "Proximity.lock_command", "loginctl lock-sessions");
        let save_success = flag(kv, "Storage.save_success_images", "false", "true");
        let save_fail = flag(kv, "Storage.save_fail_images", "false", "true");
        let model_keep_alive_sec = int_key(kv, "Performance.model_keep_alive_sec", "0", self.model_keep_alive_sec);
        let lockout_attempts = int_key(kv, "Security.lockout_attempts", "5", self.lockout_attempts);
        let lockout_duration_sec = int_key(kv, "Security.lockout_duration_sec", "300", self.lockout_duration_sec);
        let min_uid = min_uid_setting(kv);
        let gpu_flush = flag(kv, "Performance.gpu_flush", "on", "on");
        let gpu_throttle_ms = int_key(kv, "Performance.gpu_throttle_ms", "20", self.gpu_throttle_ms);
        self.threshold_text = threshold_text;
        self.detection_threshold_text = detection_threshold_text;
        self.timeout_ms = timeout_ms;
        self.log_level = log_level;
        self.log_file = log_file;
        self.policy = policy;
        self.users_dir = users_dir;
        self.models_dir = models_dir;
        self.ir_emitter_path = ir_emitter_path;
        self.detection_model = detection_model;
        self.recognition_model = recognition_model;
        self.max_embeddings = max_embeddings;
        self.enroll_hdr = enroll_hdr;
        self.enroll_averaging = enroll_averaging;
        self.enroll_average_frames = enroll_average_frames;
        self.verify_averaging = verify_averaging;
        self.verify_average_frames = verify_average_frames;
        self.camera_defs = camera_defs;
        self.provider_priority = provider_priority;
        self.proximity_sensor = proximity_sensor;
        self.proximity_sensor_id = proximity_sensor_id;
        self.proximity_enforce = proximity_enforce;
        self.wake_enabled = wake_enabled;
        self.always_wake_on_presence_detected = always_wake;
        self.wake_confidence_threshold = wake_confidence_threshold;
        self.lock_enabled = lock_enabled;
        self.lock_confidence_threshold = lock_confidence_threshold;
        self.lock_timeout_seconds = lock_timeout_seconds;
        self.lock_command = lock_command;
        self.save_success = save_success;
        self.save_fail = save_fail;
        self.model_keep_alive_sec = model_keep_alive_sec;
        self.lockout_attempts = lockout_attempts;
        self.lockout_duration_sec = lockout_duration_sec;
        self.min_uid = min_uid;
        self.gpu_flush = gpu_flush;
        self.gpu_throttle_ms = gpu_throttle_ms;
    }

    /// Reads a settings text. The cameras are detected through `backend` when
    /// the text names none; every device it reports is considered, in path order.
    pub fn load<B: ICameraBackend + ?Sized>(&mut self, input: &str, backend: &B) -> (r: bool)
        ensures
            r,
            exists|d: Seq<(Seq<char>, Seq<char>)>|
                camera_listing(d) && settings_applied(
                    old(self),
                    final(self),
                    ini_pairs(input@),
                    if needs_detection(ini_pairs(input@)) {
                        d
                    } else {
                        Seq::empty()
                    },
                ),
    {
        let kv = parse_ini(input);
        let names = lookup_or(&kv, "Cameras.names", "");
        let ir = lookup_or(&kv, "Hardware.camera_path_ir", "");
        let rgb = lookup_or(&kv, "Hardware.camera_path_rgb", "");
        proof {
            reveal_strlit("");
        }
        let detected = if names.len() == 0 && ir.len() == 0 && rgb.len() == 0 {
            enumerate_cameras(backend)
        } else {
            Vec::new()
        };
        let ghost dv = entries_view(detected@);
        proof {
            if !needs_detection(kv_view(kv@)) {
                assert(dv =~= Seq::<(Seq<char>, Seq<char>)>::empty());
            }
        }
        self.apply(&kv, &detected);
        proof {
            if needs_detection(kv_view(kv@)) {
                assert(camera_listing(dv) && settings_applied(old(self), final(self), ini_pairs(input@), dv));
            } else {
                let probes = Seq::<(Seq<char>, Seq<char>)>::empty();
                assert(detected_entries(probes) =~= probes);
                assert(camera_listing(Seq::empty()));
                assert(camera_listing(Seq::empty()) && settings_applied(old(self), final(self), ini_pairs(input@), Seq::empty()));
            }
        }
        true
    }
}


pub open spec fn flag_text(b: bool) -> Seq<char> {
    if b {
        "true"@
    } else {
        "false"@
    }
}

pub open spec fn prox_mode_text(m: ProximitySensorMode) -> Seq<char> {
    match m {
        ProximitySensorMode::Enabled => "enabled"@,
        ProximitySensorMode::Disabled => "disabled"@,
        ProximitySensorMode::Auto => "auto"@,
    }
}

pub open spec fn policy_text(p: AuthPolicy) -> Seq<char> {
    match p {
        AuthPolicy::Adaptive => "Adaptive (IR Strict, RGB Conditional)\n"@,
        AuthPolicy::StrictAll => "Strict (All Cameras Must Match)\n"@,
        AuthPolicy::LenientAny => "Lenient (Any Camera Match)\n"@,
    }
}

/// `p` followed by the `[General]` part of the report; `thr` and `det` are
/// the two score thresholds as text.
pub open spec fn with_general(p: Seq<char>, c: &Configuration, thr: Seq<char>, det: Seq<char>) -> Seq<char> {
    let p1 = p + "[General]\n"@ + "  Log Level: "@ + c.log_level@ + "\n"@;
    let p2 = if c.log_file@.len() > 0 {
        p1 + "  Log File: "@ + c.log_file@ + "\n"@
    } else {
        p1
    };
    let p3 = p2 + "  Threshold: "@ + thr + "\n"@ + "  Detection Threshold: "@ + det + "\n"@ + "  Timeout: "@
        + int_decimal(c.timeout_ms as int) + " ms\n"@;
    let p4 = p3 + "  Proximity Sensor: "@ + prox_mode_text(c.proximity_sensor) + "\n"@ + "  Proximity Sensor ID: "@
        + c.proximity_sensor_id@ + "\n"@ + "  Proximity Enforce: "@ + flag_text(c.proximity_enforce) + "\n"@;
    let p5 = p4 + "  Wake Enabled: "@ + flag_text(c.wake_enabled) + " (Always on return: "@ + flag_text(
        c.always_wake_on_presence_detected,
    ) + ", Threshold: "@ + int_decimal(c.wake_confidence_threshold as int) + "%)\n"@;
    let p6 = p5 + "  Lock Enabled: "@ + flag_text(c.lock_enabled) + " (Threshold: "@ + int_decimal(
        c.lock_confidence_threshold as int,
    ) + "%, Timeout: "@ + int_decimal(c.lock_timeout_seconds as int) + "s)\n"@;
    p6 + "  Lock Command: "@ + c.lock_command@ + "\n"@ + "  Auth Policy: "@ + policy_text(c.policy)
        + "  Max Embeddings: "@ + int_decimal(c.max_embeddings as int) + "\n\n"@
}

/// `p` followed by the `[Security]` part of the report.
pub open spec fn with_security(p: Seq<char>, c: &Configuration) -> Seq<char> {
    p + "[Security]\n"@ + "  Lockout Attempts: "@ + int_decimal(c.lockout_attempts as int) + "\n"@
        + "  Lockout Duration: "@ + int_decimal(c.lockout_duration_sec as int) + " s\n\n"@
}

/// `p` followed by the lines of one camera; `ir_version` is the IR
/// emitter's version, empty when it is not installed.
pub open spec fn with_camera(p: Seq<char>, cam: CameraDefinition, ir_path: Seq<char>, ir_version: Seq<char>) -> Seq<char> {
    let p1 = p + "  - ID: "@ + cam.id@ + "\n"@ + "    Path: "@ + cam.path@ + "\n"@ + "    Type: "@ + cam.cam_type@
        + "\n"@ + "    Mandatory: "@ + (if cam.mandatory {
        "Yes"@
    } else {
        "No"@
    }) + "\n"@ + "    Min Brightness: "@ + int_decimal(cam.min_brightness as int) + "\n"@;
    let p2 = if cam.enroll_hdr@.len() > 0 {
        p1 + "    Enroll HDR: "@ + cam.enroll_hdr@ + "\n"@
    } else {
        p1
    };
    let p3 = if cam.cam_type@ == "ir"@ {
        if ir_version.len() > 0 {
            p2 + "    IR Emitter Path: "@ + ir_path + "\n"@ + "    IR Emitter Version: "@ + ir_version + "\n"@
        } else {
            p2 + "    IR Emitter: Not Installed\n"@
        }
    } else {
        p2
    };
    p3.push('\n')
}

/// `p` followed by the lines of every camera.
pub open spec fn with_cameras(p: Seq<char>, cams: Seq<CameraDefinition>, ir_path: Seq<char>, ir_version: Seq<char>) -> Seq<char>
    decreases cams.len(),
{
    if cams.len() == 0 {
        p
    } else {
        with_camera(with_cameras(p, cams.drop_last(), ir_path, ir_version), cams.last(), ir_path, ir_version)
    }
}

/// `p` followed by the providers joined with ` > `.
pub open spec fn with_providers(p: Seq<char>, ps: Seq<Seq<char>>) -> Seq<char>
    decreases ps.len(),
{
    if ps.len() == 0 {
        p
    } else if ps.len() == 1 {
        p + ps[0]
    } else {
        with_providers(p, ps.drop_last()) + " > "@ + ps.last()
    }
}

/// `p` followed by the `[Performance]` part of the report.
pub open spec fn with_performance(p: Seq<char>, c: &Configuration) -> Seq<char> {
    let p1 = p + "[Performance]\n"@ + "  GPU Flush: "@ + (if c.gpu_flush {
        "On"@
    } else {
        "Off"@
    }) + "\n"@ + "  GPU Throttle: "@ + int_decimal(c.gpu_throttle_ms as int) + " ms\n"@ + "  Provider Priority: "@;
    with_providers(p1, c.provider_priority.deep_view()).push('\n')
}

/// The whole report of the settings.
pub open spec fn config_report(c: &Configuration, thr: Seq<char>, det: Seq<char>, ir_version: Seq<char>) -> Seq<char> {
    let head = with_security(with_general("=== Active Configuration ===\n\n"@, c, thr, det), c) + "[Cameras] ("@
        + decimal(c.camera_defs@.len()) + " active)\n"@;
    with_performance(with_cameras(head, c.camera_defs@, c.ir_emitter_path@, ir_version), c)
}

fn flag_str(b: bool) -> (r: &'static str)
    ensures
        r@ == flag_text(b),
{
    if b {
        "true"
    } else {
        "false"
    }
}

fn push_general(out: &mut String, c: &Configuration, thr: &str, det: &str)
    ensures
        final(out)@ == with_general(old(out)@, c, thr@, det@),
{
    push_str(out, "[General]\n");
    push_str(out, "  Log Level: ");
    push_str(out, c.log_level.as_str());
    push_str(out, "\n");
    if c.log_file.unicode_len() > 0 {
        push_str(out, "  Log File: ");
        push_str(out, c.log_file.as_str());
        push_str(out, "\n");
    }
    push_str(out, "  Threshold: ");
    push_str(out, thr);
    push_str(out, "\n");
    push_str(out, "  Detection Threshold: ");
    push_str(out, det);
    push_str(out, "\n");
    push_str(out, "  Timeout: ");
    push_int(out, c.timeout_ms as i64);
    push_str(out, " ms\n");
    push_str(out, "  Proximity Sensor: ");
    let mode = match c.proximity_sensor {
        ProximitySensorMode::Enabled => "enabled",
        ProximitySensorMode::Disabled => "disabled",
        ProximitySensorMode::Auto => "auto",
    };
    push_str(out, mode);
    push_str(out, "\n");
    push_str(out, "  Proximity Sensor ID: ");
    push_str(out, c.proximity_sensor_id.as_str());
    push_str(out, "\n");
    push_str(out, "  Proximity Enforce: ");
    push_str(out, flag_str(c.proximity_enforce));
    push_str(out, "\n");
    push_str(out, "  Wake Enabled: ");
    push_str(out, flag_str(c.wake_enabled));
    push_str(out, " (Always on return: ");
    push_str(out, flag_str(c.always_wake_on_presence_detected));
    push_str(out, ", Threshold: ");
    push_int(out, c.wake_confidence_threshold as i64);
    push_str(out, "%)\n");
    push_str(out, "  Lock Enabled: ");
    push_str(out, flag_str(c.lock_enabled));
    push_str(out, " (Threshold: ");
    push_int(out, c.lock_confidence_threshold as i64);
    push_str(out, "%, Timeout: ");
    push_int(out, c.lock_timeout_seconds as i64);
    push_str(out, "s)\n");
    push_str(out, "  Lock Command: ");
    push_str(out, c.lock_command.as_str());
    push_str(out, "\n");
    push_str(out, "  Auth Policy: ");
    let policy = match c.policy {
        AuthPolicy::Adaptive => "Adaptive (IR Strict, RGB Conditional)\n",
        AuthPolicy::StrictAll => "Strict (All Cameras Must Match)\n",
        AuthPolicy::LenientAny => "Lenient (Any Camera Match)\n",
    };
    push_str(out, policy);
    push_str(out, "  Max Embeddings: ");
    push_int(out, c.max_embeddings as i64);
    push_str(out, "\n\n");
}

fn push_security(out: &mut String, c: &Configuration)
    ensures
        final(out)@ == with_security(old(out)@, c),
{
    push_str(out, "[Security]\n");
    push_str(out, "  Lockout Attempts: ");
    push_int(out, c.lockout_attempts as i64);
    push_str(out, "\n");
    push_str(out, "  Lockout Duration: ");
    push_int(out, c.lockout_duration_sec as i64);
    push_str(out, " s\n\n");
}

fn push_camera_lines(out: &mut String, cam: &CameraDefinition, ir_path: &str, ir_version: &str)
    ensures
        final(out)@ == with_camera(old(out)@, *cam, ir_path@, ir_version@),
{
    push_str(out, "  - ID: ");
    push_str(out, cam.id.as_str());
    push_str(out, "\n");
    push_str(out, "    Path: ");
    push_str(out, cam.path.as_str());
    push_str(out, "\n");
    push_str(out, "    Type: ");
    push_str(out, cam.cam_type.as_str());
    push_str(out, "\n");
    push_str(out, "    Mandatory: ");
    push_str(out, if cam.mandatory { "Yes" } else { "No" });
    push_str(out, "\n");
    push_str(out, "    Min Brightness: ");
    push_int(out, cam.min_brightness as i64);
    push_str(out, "\n");
    if cam.enroll_hdr.unicode_len() > 0 {
        push_str(out, "    Enroll HDR: ");
        push_str(out, cam.enroll_hdr.as_str());
        push_str(out, "\n");
    }
    let kind = chars_of(cam.cam_type.as_str());
    if chars_eq_str(kind.as_slice(), "ir") {
        if ir_version.unicode_len() > 0 {
            push_str(out, "    IR Emitter Path: ");
            push_str(out, ir_path);
            push_str(out, "\n");
            push_str(out, "    IR Emitter Version: ");
            push_str(out, ir_version);
            push_str(out, "\n");
        } else {
            push_str(out, "    IR Emitter: Not Installed\n");
        }
    }
    out.push('\n');
}

fn push_performance(out: &mut String, c: &Configuration)
    ensures
        final(out)@ == with_performance(old(out)@, c),
{
    push_str(out, "[Performance]\n");
    push_str(out, "  GPU Flush: ");
    push_str(out, if c.gpu_flush { "On" } else { "Off" });
    push_str(out, "\n");
    push_str(out, "  GPU Throttle: ");
    push_int(out, c.gpu_throttle_ms as i64);
    push_str(out, " ms\n");
    push_str(out, "  Provider Priority: ");
    let ghost before = out@;
    let ghost pv = c.provider_priority.deep_view();
    let mut i: usize = 0;
    while i < c.provider_priority.len()
        invariant
            i <= pv.len(),
            pv == c.provider_priority.deep_view(),
            out@ == with_providers(before, pv.subrange(0, i as int)),
        decreases c.provider_priority.len() - i,
    {
        assert(pv.subrange(0, i + 1).drop_last() =~= pv.subrange(0, i as int));
        assert(pv.subrange(0, i + 1).last() == pv[i as int]);
        if i > 0 {
            push_str(out, " > ");
        }
        push_str(out, c.provider_priority[i].as_str());
        proof {
            if i == 0 {
                assert(pv.subrange(0, 1)[0] == pv[0]);
            }
        }
        i = i + 1;
    }
    assert(pv.subrange(0, pv.len() as int) =~= pv);
    out.push('\n');
}

impl Configuration {
    /// The report of the settings, as the daemon sends it. `threshold` and
    /// `detection_threshold` are the two score thresholds as text, and
    /// `ir_emitter_version` the IR emitter's version (empty when it is not
    /// installed).
    pub fn to_string_formatted(&self, threshold: &str, detection_threshold: &str, ir_emitter_version: &str) -> (r: String)
        ensures
            r@ == config_report(self, threshold@, detection_threshold@, ir_emitter_version@),
    {
        let mut out = string_from_str("=== Active Configuration ===\n\n");
        push_general(&mut out, self, threshold, detection_threshold);
        push_security(&mut out, self);
        push_str(&mut out, "[Cameras] (");
        push_decimal(&mut out, self.camera_defs.len() as u64);
        push_str(&mut out, " active)\n");
        let ghost before = out@;
        let ghost cams = self.camera_defs@;
        let mut i: usize = 0;
        while i < self.camera_defs.len()
            invariant
                i <= cams.len(),
                cams == self.camera_defs@,
                out@ == with_cameras(before, cams.subrange(0, i as int), self.ir_emitter_path@, ir_emitter_version@),
            decreases self.camera_defs.len() - i,
        {
            assert(cams.subrange(0, i + 1).drop_last() =~= cams.subrange(0, i as int));
            assert(cams.subrange(0, i + 1).last() == cams[i as int]);
            push_camera_lines(&mut out, &self.camera_defs[i], self.ir_emitter_path.as_str(), ir_emitter_version);
            i = i + 1;
        }
        assert(cams.subrange(0, cams.len() as int) =~= cams);
        push_performance(&mut out, self);
        out
    }
}

impl Default for Configuration {
    fn default() -> (c: Self)
        ensures
            is_default_config(&c),
    {
        Configuration::new()
    }
}

} // verus!
