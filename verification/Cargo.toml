[package]
name = "check_car_plates_telegram_bot"
version = "0.1.0"
edition = "2021"
publish = false

[dependencies]
teloxide = { version = "=0.6.1", features = ["macros", "redis-storage"] }
tokio = { version = "1", features = ["rt-multi-thread", "macros", "sync"] }
redis = { version = "=0.21.8", features = ["tokio-comp"] }
serde = { version = "1", features = ["derive"] }
serde_json = "1"
anyhow = "1"
log = "0.4"
thiserror = "1"
dptree = "=0.1.2"
takecell = "=0.1.1"
