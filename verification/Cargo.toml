[package]
name = "device_state"
version = "0.1.0"
edition = "2021"
publish = false

[dependencies]
libc = "0.2"
postcard = { version = "1", default-features = false, features = ["use-std"] }
serde = { version = "1", features = ["derive"] }
