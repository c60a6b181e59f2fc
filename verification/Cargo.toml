[package]
name = "signal_profiles"
version = "0.1.0"
edition = "2021"
publish = false

[dependencies]
aes-gcm = "0.11.0-rc.0"
base64 = "0.22"
bincode = "1"
futures = "0.3"
hex = "0.4"
prost = "*"
rand = "0.9"
reqwest = { version = "*", default-features = false }
serde = { version = "1", features = ["derive"] }
serde_json = "1"
thiserror = "2"
tracing = "0.1"
url = "2"
uuid = { version = "1", features = ["serde"] }
