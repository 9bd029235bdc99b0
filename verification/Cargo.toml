[package]
name = "connectalso"
version = "0.1.0"
edition = "2021"
publish = false

[dependencies]
anyhow = "=1.0.104"
axum = "=0.8.9"
chacha20poly1305 = "=0.10.1"
clap = { version = "=4.6.7", features = ["derive"] }
jni = "=0.21.1"
muda = { version = "=0.21.2", default-features = false, features = ["snapshot"] }
rand = "=0.8.8"
reqwest = { version = "=0.12.28", default-features = false, features = ["json"] }
serde = { version = "=1.0.229", features = ["derive"] }
serde_json = "=1.0.154"
sqlx = { version = "=0.8.6", default-features = false, features = ["runtime-tokio", "sqlite", "derive"] }
thiserror = "=2.0.21"
tokio = { version = "=1.54.1", features = ["full"] }
tracing = "=0.1.44"
tracing-subscriber = { version = "=0.3.23", features = ["env-filter"] }
tray-icon = { version = "=0.26.1", default-features = false, features = ["ksni"] }
tun2 = { version = "=4.0.0", features = ["async"] }
uuid = { version = "=1.29.0", features = ["v4", "serde"] }
x25519-dalek = { version = "=2.0.1", features = ["getrandom", "static_secrets"] }
