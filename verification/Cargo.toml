[package]
name = "whiteboard_sync"
version = "0.1.0"
edition = "2021"
publish = false

[dependencies]
anyhow = "1"
async-recursion = "1"
egui = { version = "*", default-features = false }
http = "1"
log = "0.4"
reqwest = { version = "0.12", default-features = false }
serde = { version = "1", features = ["derive"] }
serde_json = "1"
simple_logger = "*"
