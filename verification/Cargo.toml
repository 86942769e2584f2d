[package]
name = "pelp"
version = "0.1.0"
edition = "2021"
publish = false

[dependencies]
chrono = { version = "*", features = ["serde"] }
rand = "*"
axum = "*"
clap = { version = "*", features = ["derive"] }
clap_complete = "*"
console = "*"
dialoguer = "*"
dirs = "*"
enum-iterator = "*"
notify = "*"
serde = { version = "*", features = ["derive"] }
serde_json = "*"
tokio = { version = "*", features = ["rt-multi-thread", "net", "macros"] }
tower = { version = "*", features = ["util"] }
tower-http = { version = "*", features = ["fs", "set-header"] }
tower-livereload = "*"
tracing-subscriber = "*"
