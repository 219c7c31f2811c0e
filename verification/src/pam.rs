//! Settings of the PAM module.
pub mod pam_config;
pub mod pam_module;
