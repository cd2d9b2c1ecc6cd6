[package]
name = "slippy_map"
version = "0.1.0"
edition = "2021"
publish = false

[dependencies]
serde = { version = "1", features = ["derive"] }
toml = "*"
nix = { version = "*", features = ["user"] }
