[package]
name = "voice_sessions"
version = "0.1.0"
edition = "2021"
publish = false

[dependencies]
anyhow = "1"
dotenvy = "0.15"
env_logger = "0.11"
log = "0.4"
serenity = "0.12"
songbird = { version = "0.4", default-features = false, features = ["serenity", "gateway", "rustls"] }
tokio = { version = "1", features = ["macros", "rt-multi-thread", "signal", "sync", "time"] }
