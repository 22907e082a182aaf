[package]
name = "solception"
version = "0.1.0"
edition = "2021"
publish = false

[dependencies]
chrono = { version = "=0.4.45", default-features = false, features = ["std", "alloc"] }
anyhow = "1.0.104"
clap = { version = "4.5.61", features = ["derive"] }
dotenvy = "0.15.7"
ureq = { version = "2", features = ["json"] }
serde_json = "1"
