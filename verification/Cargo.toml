[package]
name = "genie_core"
version = "0.1.0"
edition = "2021"
publish = false

[dependencies]
uuid = { version = "=1.27.0", features = ["v4"] }
chrono = "=0.4.45"
glob = "=0.3.4"
tera = { version = "=2.4.0", default-features = false }
dirs = "=7.0.0"
serde = { version = "=1.0.229", features = ["derive"] }
serde_json = "=1.0.151"
serde_yaml = "=0.9.34"
toml = "=1.1.6"
thiserror = "=2.0.21"
ignore = "*"
tokio = { version = "=1.53.2", features = ["rt-multi-thread", "macros", "process", "time"] }
sqlx = { version = "=0.9.0", default-features = false, features = ["sqlite", "runtime-tokio"] }
