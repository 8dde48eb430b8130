[package]
name = "wlroots_bridge"
version = "0.1.0"
edition = "2021"
publish = false

[dependencies]
anyhow = "1"
wayland-client = "0.31"
wayland-protocols-misc = { version = "0.3", features = ["client"] }
xkeysym = "0.2"
