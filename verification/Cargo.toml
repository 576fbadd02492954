[package]
name = "rtp_mux"
version = "0.1.0"
edition = "2021"
publish = false

[dependencies]
futures = "0.3"
metrics = "0.24"
rand = "0.9"
thiserror = "2"
tokio = { version = "1", features = ["full"] }
tokio-util = "0.7"
tracing = "0.1"
