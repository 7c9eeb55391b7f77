[package]
name = "astra_sentinel"
version = "0.3.0"
edition = "2021"
publish = false

[dependencies]
anyhow = "1"
eframe = { version = "0.29", default-features = false, features = ["default_fonts", "glow", "x11"] }
md-5 = "0.10"
reqwest = { version = "0.12", default-features = false, features = ["blocking", "rustls-tls"] }
serde = { version = "1", features = ["derive"] }
serde_json = "1"
sha1 = "0.10"
sha2 = "0.10"
walkdir = "2"
zip = { version = "2", default-features = false, features = ["deflate"] }
