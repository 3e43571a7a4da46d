[package]
name = "suricata-sql-output"
version = "0.1.0"
edition = "2021"
publish = false

[dependencies]
env_logger = "*"
log = "0.4"
sqlx = { version = "0.8", default-features = false, features = ["runtime-tokio", "sqlite", "postgres"] }
suricata-sys = "*"
tokio = { version = "1", features = ["rt", "time", "net"] }
zlib-rs = "*"
