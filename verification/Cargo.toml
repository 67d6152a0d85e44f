[package]
name = "spelli"
version = "0.1.0"
edition = "2021"
publish = false

[dependencies]
unic-langid = "*"
iso639 = "*"
registry = "*"
widestring = "*"
windirs = "*"
log = "*"
fern = "*"
chrono = "*"
gumdrop = "*"
pathos = "*"
toml = "*"
serde = { version = "*", features = ["derive"] }
thiserror = "*"
