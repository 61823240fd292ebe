[package]
name = "mdprep"
version = "0.1.0"
edition = "2021"
publish = false

[dependencies]
anyhow = "1"
clap = { version = "4", features = ["derive"] }
itertools = "0.13"
pulldown-cmark = { version = "0.12", default-features = false, features = ["html"] }
serde_json = "1"
shell-words = "1"
tera = { version = "1", default-features = false }
toml = "0.8"
