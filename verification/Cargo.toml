[package]
name = "pocket_calibre"
version = "0.1.0"
edition = "2021"
publish = false

[dependencies]
image = { version = "0.25", default-features = false, features = ["jpeg"] }
inkview = "*"
serde = { version = "1", features = ["derive"] }
serde_json = "1"
slint = { version = "1", default-features = false, features = ["compat-1-2", "std"] }
toml = "*"
ureq = { version = "3", features = ["json"] }
