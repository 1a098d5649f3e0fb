[package]
name = "rvim"
version = "0.1.0"
edition = "2021"
publish = false

[dependencies]
lazy_static = "1"
notify = "*"
serde = { version = "1", features = ["derive"] }
serde_json = "1"
termion = "*"
time = { version = "0.3", features = ["serde"] }
toml = "*"
wl-clipboard-rs = "*"
