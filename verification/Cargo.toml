[package]
name = "log_collector"
version = "0.1.0"
edition = "2021"
publish = false

[dependencies]
md5 = "*"
actix-web = "*"
actix-web-httpauth = "*"
anyhow = "*"
chrono = "*"
clap = { version = "*", features = ["derive"] }
log = "*"
sea-orm = { version = "*", default-features = false, features = ["macros", "with-chrono", "sqlx-sqlite", "runtime-tokio-rustls"] }
serde = { version = "*", features = ["derive"] }
serde_json = "*"
tokio = { version = "*", features = ["sync"] }
