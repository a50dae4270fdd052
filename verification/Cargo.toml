[package]
name = "desk_exec"
version = "0.1.0"
edition = "2021"
publish = false

[dependencies]
freedesktop-desktop-entry = { version = "=0.8.3", default-features = false }
clap = { version = "=4.6.7", features = ["derive"] }
serde = { version = "=1.0.229", features = ["derive"] }
toml = "=1.1.7"
xdg = "=3.0.0"
