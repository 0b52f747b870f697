[package]
name = "quickclipboard"
version = "0.1.0"
edition = "2021"
publish = false

[dependencies]
sha2 = "0.10"
serde = { version = "1", features = ["derive"] }
serde_json = "1"
once_cell = "1"
parking_lot = "0.12"
chrono = "0.4"
rusqlite = { version = "*", features = ["bundled"] }
image = { version = "*", default-features = false, features = ["png", "jpeg", "gif", "webp"] }

[dev-dependencies]
uuid = { version = "1", features = ["v4"] }
