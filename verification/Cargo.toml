[package]
name = "crowbar"
version = "0.1.0"
edition = "2021"
publish = false

[dependencies]
scraper = "*"
sha2 = "0.10"
hex = "*"
urlencoding = "*"
serde = { version = "1", features = ["derive"] }
serde_json = "1"
chrono = "*"
rocket = { version = "0.5", features = ["json"] }
rocket-governor = "=0.2.0-rc.4"
reqwest = { version = "0.12", default-features = false, features = ["json", "rustls-tls"] }
tokio = { version = "1", features = ["full"] }
redis = { version = "0.27", features = ["tokio-comp"] }
