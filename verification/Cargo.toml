[package]
name = "jdock"
version = "0.1.0"
edition = "2021"
publish = false

[dependencies]
shlex = "1"
serde = { version = "1", features = ["derive"] }
toml = "0.8"
dirs = "6"
gtk4 = "*"
gio = "*"
gtk4-layer-shell = "*"
libc = "0.2"
async-channel = "2"
calloop = "*"
calloop-wayland-source = "*"
wayland-client = "0.31"
wayland-protocols-wlr = { version = "0.3", features = ["client"] }
