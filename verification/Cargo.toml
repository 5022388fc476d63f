[package]
name = "mrepo"
version = "0.1.0"
edition = "2021"
publish = false

[dependencies]
chrono = "*"
zip = { version = "*", default-features = false, features = ["deflate"] }
reqwest = { version = "*", default-features = false, features = ["rustls-tls"] }
tokio = { version = "*", features = ["macros", "rt-multi-thread"] }
clap = { version = "*", features = ["derive"] }
git2 = { version = "*", default-features = false }
walkdir = "*"
tracing = "*"
tracing-subscriber = "*"
tracing-appender = "*"
