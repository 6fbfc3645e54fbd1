[package]
name = "sudo_pop"
version = "0.1.0"
edition = "2021"
publish = false

[dependencies]
zeroize = "=1.8.2"
libc = "=0.2.191"
zbus = "=5.19.0"
async-io = "=2.6.0"
async-lock = "=3.5.0"
async-process = "=2.5.0"
futures-lite = "=2.6.1"
eframe = { version = "=0.37.0", default-features = false, features = ["default_fonts", "glow", "wayland"] }
