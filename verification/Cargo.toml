[package]
name = "nprs"
version = "0.1.0"
edition = "2021"
publish = false

[dependencies]
flate2 = "1"
image = { version = "*", default-features = false, features = ["png", "jpeg"] }
rustc-serialize = "0.3"
rusty-machine = "*"
stopwatch = "*"
