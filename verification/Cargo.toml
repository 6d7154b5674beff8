[package]
name = "bevy_serial"
version = "0.2.0"
edition = "2021"
publish = false

[dependencies]
bevy = { version = "=0.6.1", default-features = false, features = ["render", "bevy_winit", "x11"] }
mio = { version = "=1.2.4", features = ["os-poll"] }
mio-serial = { version = "=5.0.7", default-features = false }
serialport = { version = "=4.10.1", default-features = false }
darling_macro = "=0.13.4"
