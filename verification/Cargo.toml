[package]
name = "panel_core"
version = "0.1.0"
edition = "2021"
publish = false

[dependencies]
uuid = { version = "*", features = ["v4"] }
ignore = "*"
reqwest = { version = "*", default-features = false, features = ["json"] }
tokio = { version = "*", features = ["rt", "macros"] }
serde = { version = "*", features = ["derive"] }
serde_json = "*"
chrono = { version = "*", default-features = false, features = ["clock"] }
urlencoding = "*"
