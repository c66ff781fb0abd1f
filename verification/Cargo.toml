[package]
name = "ipa_parser"
version = "0.1.0"
edition = "2021"
publish = false

[dependencies]
flate2 = "*"
zip = { version = "*", default-features = false, features = ["deflate"] }
plist = "*"
serde = { version = "*", features = ["derive"] }
serde_json = "*"
rayon = "*"
md5 = "*"
memmap2 = "*"
clap = { version = "*", features = ["derive"] }
anyhow = "*"
thiserror = "*"
