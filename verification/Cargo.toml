[package]
name = "spacefeeder"
version = "0.1.0"
edition = "2021"
publish = false

[dependencies]
anyhow = "*"
chrono = { version = "*", features = ["serde"] }
clap = { version = "*", features = ["derive"] }
dirs = "*"
feed-rs = "*"
opml = "*"
rayon = "*"
regex = "*"
serde = { version = "*", features = ["derive"] }
serde_json = "*"
toml_edit = { version = "*", features = ["serde"] }
ureq = "*"
url = "*"
