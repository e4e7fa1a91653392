[package]
name = "brut"
version = "0.1.0"
edition = "2021"
publish = false

[dependencies]
globset = "*"
anyhow = "*"
camino = "*"
cargo-lock = "*"
clap = { version = "*", features = ["derive"] }
colored = "*"
git2 = { version = "*", default-features = false }
serde = { version = "*", features = ["derive"] }
toml = "*"
which = "*"
