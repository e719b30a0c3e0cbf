[package]
name = "rotator"
version = "0.1.0"
edition = "2021"
publish = false

[dependencies]
rusqlite = { version = "=0.41.0", features = ["bundled", "fallible_uint"] }
serde = { version = "=1.0.229", features = ["derive"] }
dirs = "=7.0.0"
once_cell = "=1.21.4"
cocoa = "=0.27.0"
objc = "=0.2.7"
