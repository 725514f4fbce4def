[package]
name = "party_sessions"
version = "0.1.0"
edition = "2021"
publish = false

[dependencies]
serde = { version = "=1.0.229", features = ["derive"] }
serenity = { version = "=0.12.5", features = ["collector"] }
tokio = { version = "=1.53.2", features = ["macros", "rt-multi-thread", "time"] }
mongodb = "=3.9.1"
