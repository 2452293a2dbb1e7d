[package]
name = "qcm_backend"
version = "0.1.0"
edition = "2021"
publish = false

[dependencies]
unicode-normalization = "0.1"
chrono = { version = "0.4", default-features = false, features = ["std"] }
prost-types = "0.13"
tokio = { version = "1", features = ["sync", "rt", "macros", "time"] }
bytes = "1"
anyhow = "1"
log = "0.4"
