[package]
name = "unicode_bot"
version = "0.1.0"
edition = "2021"
publish = false

[dependencies]
charname = "*"
chrono = "0.4"
futures = "0.3"
tg_botapi = "*"
tokio = { version = "1", features = ["macros", "rt-multi-thread", "sync", "time"] }
