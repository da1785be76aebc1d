[package]
name = "pinger"
version = "0.1.0"
edition = "2021"
publish = false

[dependencies]
axum = { version = "*", features = ["ws"] }
base64 = "*"
chacha20poly1305 = "*"
rand = "*"
tokio = { version = "*", features = ["rt-multi-thread", "macros", "net", "sync"] }
x25519-dalek = { version = "*", features = ["static_secrets", "getrandom"] }

[dev-dependencies]
regex = "*"
