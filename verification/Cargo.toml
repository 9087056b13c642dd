[package]
name = "dbar"
version = "0.1.0"
edition = "2021"
publish = false

[dependencies]
anyhow = "=1.0.104"
calloop = "=0.14.5"
libc = "=0.2.191"
log = "=0.4.35"
pipewire = "*"
serde = { version = "=1.0.229", features = ["derive"] }
serde_json = "=1.0.154"
signal-hook = "=0.4.6"
smithay-client-toolkit = { version = "*", default-features = false, features = ["calloop"] }
toml = "=1.1.8"
wayland-client = "*"
