[package]
name = "feed_cache"
version = "0.1.0"
edition = "2021"
publish = false

[dependencies]
argon2 = "0.5"
bincode = "2"
chrono = "0.4"
feed-rs = "1"
rand = "0.8"
rocket = "0.5"
rocket_dyn_templates = { version = "0.2", features = ["tera"] }
serde = { version = "1", features = ["derive"] }
sled = "0.34"
ureq = "2"
url = "2"
