[package]
name = "card_catalog"
version = "0.1.0"
edition = "2021"
publish = false

[dependencies]
twox-hash = "=1.6.3"
uuid = { version = "=1.29.1", features = ["v4"] }
getrandom = "=0.4.3"
time = "=0.1.45"
rusqlite = { version = "=0.28.0", features = ["bundled"] }
walkdir = "=2.5.0"
dotenv = "=0.15.0"
clap = "=2.34.0"
rocket = { version = "=0.5.2", features = ["json"] }
rocket_cors = "=0.6.0"
serde = { version = "=1.0.229", features = ["derive"] }
