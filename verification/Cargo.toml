[package]
name = "camera_client"
version = "0.1.0"
edition = "2021"
publish = false

[dependencies]
zune-jpeg = "*"
serde = { version = "*", features = ["derive"] }
serde_json = "*"
tokio = { version = "*", features = ["rt-multi-thread", "sync", "macros", "time"] }
tokio-util = "*"
tokio-tungstenite = "*"
futures-util = "*"
reqwest = { version = "*", default-features = false, features = ["json"] }
