[package]
name = "touch_swipe"
version = "0.1.0"
edition = "2021"
publish = false

[dependencies]
smithay = { version = "0.7", default-features = false }
