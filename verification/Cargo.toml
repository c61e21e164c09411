[package]
name = "memflow"
version = "0.1.0"
edition = "2021"
publish = false

[dependencies]
log = "0.4"
memmap = "0.7"
serde = { version = "1", features = ["derive"] }
