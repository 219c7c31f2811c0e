[package]
name = "pam_linuxcampam"
version = "0.9.7"
edition = "2021"
publish = false

[dependencies]
image = { version = "=0.25.10", default-features = false, features = ["jpeg"] }
serde_json = "=1.0.154"
libc = "=0.2.191"
tract-onnx = "=0.21.19"
# tract-onnx reaches kstring through liquid-core; kstring 2.0.5 needs Rust 1.96,
# so the releases before it are kept.
kstring = ">=2.0.0, <2.0.3"
