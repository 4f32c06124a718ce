[package]
name = "gambleguard"
version = "0.1.0"
edition = "2021"
publish = false

[dependencies]
reqwest = { version = "*", default-features = false, features = ["blocking", "rustls-tls"] }
tiny_http = "*"
chrono = { version = "*", default-features = false, features = ["clock"] }
dirs = "*"
log = "*"
simplelog = "*"
