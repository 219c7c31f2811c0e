pub mod constants;
pub mod text;
pub mod ini;
pub mod ipc_protocol;
pub mod pam;
pub mod parsers;
pub mod sensor_factory;
pub mod sensor_parser;
pub mod logger;
pub mod utils;
pub mod hardware_manager;
pub mod config;
pub mod camera;
pub mod auth;
pub mod daemon;
pub mod cli;

pub use camera::{decode_v4l2_frame, Camera, RgbFrame, RgbPixel};
pub use config::{AuthPolicy, CameraDefinition, Configuration, ProximitySensorMode};
pub use constants::{
    CAMERA_AVERAGE_FRAMES, CONFIG_PATH, DEFAULT_MIN_UID, IR_EMITTER_PATH, LINUXCAMPAM_VERSION,
    MAX_USERNAME_LENGTH, MODELS_DIR, SOCKET_PATH, USERS_DIR,
};
pub use hardware_manager::{HardwareId, HardwareManager};
pub use ipc_protocol::{command_to_string, string_to_command, Command, Request};
pub use logger::{log_debug, log_error, log_info, log_warn, LogLevel, Logger};
pub use parsers::Ite8353Parser;
pub use sensor_factory::{ISensorFactory, SensorFactory};
pub use sensor_parser::{SensorParser, SensorState};
pub use utils::{
    classify_camera_type, enumerate_cameras, get_model_version, is_valid_username,
    poll_remaining_ms, ICameraBackend,
};
