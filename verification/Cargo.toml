[package]
name = "prek"
version = "0.1.0"
edition = "2021"
publish = false

[dependencies]
anyhow = "1"
fs-err = { version = "3", features = ["tokio"] }
futures = "0.3"
owo-colors = "4"
rustc-hash = "2"
thiserror = "2"
tokio = { version = "1", features = ["fs", "io-util", "rt", "macros"] }
tracing = "0.1"
which = "*"

[dev-dependencies]
tempfile = "3"
