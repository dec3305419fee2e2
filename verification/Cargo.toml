[package]
name = "alias_manager"
version = "0.1.0"
edition = "2021"
publish = false

[dependencies]
semver = "=1.0.28"
dirs = "=7.0.0"
serde = { version = "=1.0.229", features = ["derive"] }
serde_json = "=1.0.154"
thiserror = "=2.0.21"
log = "=0.4.35"
ureq = { version = "=2.12.1", default-features = false, features = ["json"] }
notify = "*"
