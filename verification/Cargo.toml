[package]
name = "buildinfo_crawler"
version = "0.1.0"
edition = "2021"
publish = false

[dependencies]
xz2 = "*"
kuchiki = "*"
clap = { version = "*", features = ["derive"] }
serde = { version = "*", features = ["derive"] }
serde_json = "*"
reqwest = { version = "*", default-features = false, features = ["blocking", "rustls-tls"] }
