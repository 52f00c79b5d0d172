[package]
name = "stringly"
version = "0.1.0"
edition = "2021"
publish = false

[dependencies]
anyhow = "1"
calamine = "0.22"
clap = { version = "4", features = ["derive", "env"] }
fluent-syntax = "*"
heck = "*"
html-escape = "*"
icu = { version = "1", default-features = false }
iso639 = "*"
regex = "1"
reqwest = { version = "0.11", default-features = false, features = ["json", "rustls-tls"] }
rust_xlsxwriter = "*"
serde = { version = "1", features = ["derive"] }
serde_json = "1"
tokio = { version = "1", features = ["macros", "rt-multi-thread"] }
toml = "*"
walkdir = "2"
