[package]
name = "metric_videos"
version = "0.1.0"
edition = "2021"
publish = false

[dependencies]
actix-files = "*"
actix-rt = "*"
actix-web = "*"
chrono = "*"
clap = { version = "*", features = ["env"] }
config = "*"
log = "*"
log4rs = "*"
serde = { version = "*", features = ["derive"] }
