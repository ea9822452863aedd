[package]
name = "pixfetch"
version = "0.1.0"
edition = "2021"
publish = false

[dependencies]
cookie = "*"
fantoccini = { version = "*", default-features = false, features = ["rustls-tls"] }
futures = "*"
indicatif = "*"
reqwest = { version = "*", default-features = false, features = ["rustls-tls"] }
serde = { version = "*", features = ["derive"] }
serde_json = "*"
tokio = { version = "*", features = ["macros", "rt-multi-thread", "fs", "io-util", "time"] }
