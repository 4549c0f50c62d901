[package]
name = "keystone_cc"
version = "0.1.0"
edition = "2021"
publish = false

[dependencies]
rand = "0.9"
rhai = "1"
ron = "0.8"
serde = { version = "1", features = ["derive"] }
thiserror = "2"
