[package]
name = "rustrland"
version = "0.3.2"
edition = "2021"
publish = false

[dependencies]
anyhow = "1"
async-trait = "0.1"
dirs = "5"
hyprland = "*"
notify-rust = "4"
rand = "0.8"
regex = "1"
serde = { version = "1", features = ["derive"] }
tokio = { version = "1", features = ["full"] }
toml = "0.8"
tracing = "0.1"
