[package]
name = "server_wrapper"
version = "0.1.0"
edition = "2021"
publish = false

[dependencies]
glob = "=0.3.4"
zip = "=0.6.6"
sha1 = "=0.10.7"
serde = { version = "=1.0.229", features = ["derive"] }
serde_json = "=1.0.151"
toml = "=0.5.11"
reqwest = { version = "=0.11.27", default-features = false, features = ["json", "gzip", "rustls-tls"] }
tokio = { version = "=1.53.2", features = ["full"] }
futures = "=0.3.34"
chrono = { version = "=0.4.45", features = ["serde"] }
bytes = "=1.12.1"
thiserror = "=1.0.69"
