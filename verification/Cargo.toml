[package]
name = "mcp_federation"
version = "0.1.0"
edition = "2021"
publish = false

[dependencies]
dirs = "*"
toml = "*"
serde = { version = "*", features = ["derive"] }
serde_json = "*"
