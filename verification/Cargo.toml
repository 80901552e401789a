[package]
name = "really-notify"
version = "0.1.0"
edition = "2021"
publish = false

[dependencies]
async-stream = "0.3"
bitmask-enum = "2"
futures = "0.3"
libc = "0.2"
log = "0.4"
notify = "6"
thiserror = "1"
tokio = { version = "1", features = ["fs", "io-util", "macros", "net", "rt", "rt-multi-thread", "sync", "time"] }
