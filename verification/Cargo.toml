[package]
name = "walriust"
version = "0.1.0"
edition = "2021"
publish = false

[dependencies]
chrono = "0.4"
diesel = { version = "1.4", features = ["postgres", "r2d2", "chrono"] }
futures = "0.3"
telegram-bot = "0.7"
tokio = { version = "0.2", features = ["macros", "rt-threaded"] }
