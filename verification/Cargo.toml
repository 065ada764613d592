[package]
name = "mcp_sync"
version = "0.1.0"
edition = "2021"
publish = false

[dependencies]
dirs = "*"
libc = "*"
notify = "*"
serde = { version = "*", features = ["derive"] }
serde_json = "*"
toml_edit = "*"
