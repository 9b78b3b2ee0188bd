[package]
name = "crosslive"
version = "0.1.0"
edition = "2021"
publish = false

[dependencies]
uuid = { version = "*", features = ["v4"] }
tokio = { version = "*", features = ["full"] }
anyhow = "*"
async-trait = "*"
log = "*"
fern = { version = "*", features = ["colored"] }
humantime = "*"
chrono = "*"
config = { version = "*", default-features = false, features = ["toml"] }
dirs = "*"
rayon = "*"
serde = { version = "*", features = ["derive"] }
copypasta = "*"
