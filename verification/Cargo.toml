[package]
name = "rustymon_server"
version = "0.1.0"
edition = "2021"
publish = false

[dependencies]
actix-toolbox = { version = "=0.10.3", features = ["logging", "session"] }
actix-web = { version = "=4.18.1", features = ["secure-cookies"] }
argon2 = "=0.5.3"
base64 = "=0.21.7"
chrono = "=0.4.45"
clap = { version = "=4.6.7", features = ["derive"] }
futures = "=0.3.34"
linear-map = { version = "=1.2.0", features = ["serde_impl"] }
log = "=0.4.34"
rorm = { version = "=0.5.3", features = ["tokio-rustls"] }
serde = { version = "=1.0.229", features = ["derive"] }
serde_json = "=1.0.154"
serde_repr = "=0.1.21"
tokio = { version = "=1.54.1", features = ["rt-multi-thread", "macros"] }
toml = "=0.7.8"
