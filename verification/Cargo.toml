[package]
name = "component_db"
version = "0.1.0"
edition = "2021"
publish = false

[dependencies]
uuid = { version = "1", features = ["v4", "serde"] }
imgui = "0.6"
strum = "*"
strum_macros = "*"
typename = "0.1"
serde = { version = "1", features = ["derive"] }
serde_json = "1"
