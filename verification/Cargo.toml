[package]
name = "mdbook_autosummary"
version = "0.1.0"
edition = "2021"
publish = false

[dependencies]
sha2 = "0.10"
mdbook = { version = "0.4", default-features = false }
clap = "4"
log = "0.4"
env_logger = "*"
chrono = "0.4"
semver = "1"
serde_json = "1"
serde = "1"
serde_derive = "1"
walkdir = "2"
path-slash = "*"
