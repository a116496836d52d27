[package]
name = "bestof"
version = "0.1.0"
edition = "2021"
publish = false

[dependencies]
rand = "0.8"
chrono = "0.4"
log = "0.4"
lazy_static = "1"
futures = "0.3"
tokio = { version = "1", features = ["rt", "rt-multi-thread", "macros", "sync", "time"] }
sqlx = { version = "0.7", default-features = false, features = ["runtime-tokio", "sqlite", "macros", "migrate"] }
serenity = "0.12"
poise = "0.6"
