[package]
name = "aw_datastore"
version = "0.1.0"
edition = "2021"
publish = false

[dependencies]
argon2 = "=0.5.3"
chrono = "=0.4.45"
jsonwebtoken = "=9.3.1"
serde_json = "=1.0.151"
rusqlite = { version = "=0.40.2", features = ["bundled"] }
mpsc_requests = "=0.3.4"
password-hash = { version = "=0.5.0", features = ["getrandom"] }
