[package]
name = "localsend_core"
version = "0.1.0"
edition = "2021"
publish = false

[dependencies]
if-addrs = "0.13"
log = "0.4"
env_logger = { version = "0.11", default-features = false }
android_logger = { version = "0.14", default-features = false }
jni = "0.21"
