[package]
name = "ircjournal"
version = "0.1.0"
edition = "2021"
publish = false

[dependencies]
chrono = { version = "=0.4.45", default-features = false, features = ["std", "serde"] }
regex = "=1.13.1"
tokio = { version = "=1.54.1", features = ["fs", "io-util", "macros", "rt-multi-thread", "sync", "time"] }
sqlx = { version = "=0.8.6", default-features = false, features = ["postgres", "runtime-tokio", "chrono", "migrate"] }
inotify = "=0.10.2"
figment = { version = "=0.10.19", features = ["yaml", "env"] }
serde = { version = "=1.0.229", features = ["derive"] }
serde_json = "=1.0.154"
futures = "=0.3.34"
log = "=0.4.34"
env_logger = "=0.11.11"
