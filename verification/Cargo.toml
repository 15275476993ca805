[package]
name = "roulette_table"
version = "0.1.0"
edition = "2021"
publish = false

[dependencies]
sha256 = { version = "=1.6.0", default-features = false }
uuid = { version = "=1.29.0", features = ["v4", "serde"] }
rand = "=0.8.8"
chrono = { version = "=0.4.45", default-features = false, features = ["clock"] }
rocket = { version = "=0.5.2", features = ["json"] }
rocket_ws = "=0.1.1"
serde = { version = "=1.0.229", features = ["derive"] }
log = "=0.4.34"
anyhow = "=1.0.104"
async-trait = "0.1"
http = "1"
pingora = { version = "0.4", default-features = false }
pingora-proxy = { version = "0.4", default-features = false }
