[package]
name = "vusb"
version = "0.1.0"
edition = "2021"
publish = false

[dependencies]
getopts = "=0.2.24"
serde = { version = "=1.0.229", features = ["derive"] }
toml = "=1.1.8"
thiserror = "=2.0.21"
wincode = { version = "=0.6.3", features = ["derive"] }
evdev = "=0.13.2"
inotify = "=0.11.5"
nix = { version = "=0.31.3", features = ["poll"] }
winapi = { version = "=0.3.9", features = ["winuser", "processthreadsapi"] }
