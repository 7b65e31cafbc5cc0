[package]
name = "gtk4_e2e_server"
version = "0.1.0"
edition = "2021"
publish = false

[dependencies]
rand = "0.8"
serde = { version = "1", features = ["derive"] }
serde_json = "1"
schemars = "0.8"
axum = { version = "0.7", features = ["ws"] }
tokio = { version = "1", features = ["full"] }
futures-util = { version = "0.3", features = ["sink"] }
gtk4 = "0.9"
time = { version = "0.3", features = ["formatting"] }
uuid = { version = "1", features = ["v4"] }
