[package]
name = "rlr-tools"
version = "0.1.0"
edition = "2021"
publish = false

[dependencies]
sha3 = "0.10"
ed25519-dalek = { version = "2", features = ["rand_core"] }
fips204 = "0.4"
rand = "0.8"
base64 = "0.22"
serde = { version = "1", features = ["derive"] }
serde_json = "1"
hex = "0.4"
boxcars = "0.10"
axum = { version = "0.8", features = ["multipart"] }
tokio = { version = "1", features = ["rt-multi-thread", "net", "macros"] }
tower-http = { version = "0.6", features = ["fs"] }
