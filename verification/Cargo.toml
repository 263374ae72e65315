[package]
name = "voice_pool"
version = "0.1.0"
edition = "2021"
publish = false

[dependencies]
serenity = "0.12"
poise = "0.6"
tokio = { version = "1", features = ["macros", "rt-multi-thread", "sync"] }
dotenvy = "0.15"
