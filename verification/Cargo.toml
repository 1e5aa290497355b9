[package]
name = "sar"
version = "0.1.0"
edition = "2021"
publish = false

[dependencies]
default-editor = "=0.1.0"
dirs = "=6.0.0"
failure = "=0.1.8"
rpassword = "=7.5.4"
scoped-pool = "=1.0.0"
self_update = { version = "=1.3.2", default-features = false, features = ["ureq", "rustls", "github"] }
serde = { version = "=1.0.229", features = ["derive"] }
shellexpand = "=3.1.2"
skim = { version = "=5.8.0", default-features = false }
structopt = { version = "=0.3.26", default-features = false }
toml = { version = "1.1.8", default-features = false, features = ["std", "parse", "serde"] }
walkdir = "=2.5.0"
