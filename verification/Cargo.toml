[package]
name = "cargo_rbuild"
version = "0.1.0"
edition = "2021"
publish = false

[dependencies]
bincode = "1.3"
globset = "0.4"
ignore = "0.4"
rand_core = { version = "0.6", features = ["getrandom"] }
rpassword = "7"
serde = { version = "1", features = ["derive"] }
serde_json = "1"
ssh-key = { version = "0.6", features = ["ed25519", "encryption"] }
zstd = "0.13"
