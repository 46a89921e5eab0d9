[package]
name = "gifclip"
version = "0.1.0"
edition = "2021"
publish = false

[dependencies]
anyhow = "*"
clap = { version = "*", features = ["derive"] }
dialoguer = "*"
dirs = "*"
reqwest = { version = "*", default-features = false, features = ["blocking", "rustls-tls"] }
serde = { version = "*", features = ["derive"] }
tar = "*"
tempfile = "*"
toml = "*"
which = "*"
xz2 = "*"
zip = { version = "*", default-features = false, features = ["deflate"] }
