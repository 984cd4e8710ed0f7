[package]
name = "implink"
version = "0.1.0"
edition = "2021"
publish = false

[dependencies]
clap = { version = "*", features = ["derive"] }
fs_extra = "*"
junction = "*"
terminal_size = "*"

[dev-dependencies]
serde_json = "*"
