[package]
name = "gemini_structured_output"
version = "0.1.0"
edition = "2021"
publish = false

[dependencies]
serde_json = "1"
serde = { version = "1", features = ["derive"] }
base64 = "0.22"
uuid = { version = "1", features = ["v4"] }
