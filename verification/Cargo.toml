[package]
name = "filewall"
version = "0.1.0"
edition = "2021"
publish = false

[dependencies]
env_logger = "0.11"
globset = "0.4"
iced = { version = "0.13", default-features = false, features = ["tiny-skia", "fira-sans", "tokio"] }
libc = "0.2"
log = "0.4"
nix = { version = "0.29", features = ["fs", "inotify", "poll", "signal"] }
serde = { version = "1", features = ["derive"] }
serde_json = "1"
serde_norway = "0.9"
thiserror = "1"
toml = "0.8"
zbus = "5"
