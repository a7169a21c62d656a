[package]
name = "riot"
version = "0.1.0"
edition = "2021"
publish = false

[dependencies]
sha2 = "0.10"
pyo3 = { version = "*", features = ["auto-initialize"] }
indexmap = "2"
itertools = "*"
fancy-regex = "*"
shell-words = "1"
crossterm = "*"
rayon = "1"
clap = { version = "4", features = ["derive"] }
clap_complete = { version = "4", features = ["unstable-dynamic"] }
serde = { version = "1", features = ["derive"] }
serde_json = "1"
serde_yaml = "*"
toml = "*"
tempfile = "3"
