[package]
name = "bskx_mosaic"
version = "0.1.0"
edition = "2021"
publish = false

[dependencies]
image = "=0.25.10"
blurslice = "=0.1.0"
axum = "=0.8.9"
axum_thiserror = { version = "=0.3.0", default-features = false }
futures = "*"
lazy_static = "*"
reqwest = { version = "*", default-features = false }
serde = { version = "*", features = ["derive"] }
thiserror = "*"
tokio = { version = "*", features = ["full"] }
tokio-util = { version = "*", features = ["io"] }
tower-http = { version = "*", features = ["trace"] }
tracing = "*"
tracing-subscriber = "*"
ffmpeg-next = "*"
