[package]
name = "lumber"
version = "0.1.0"
edition = "2021"
publish = false

[dependencies]
ramp = "*"
serde = { version = "1", features = ["derive"] }
im-rc = "15"
