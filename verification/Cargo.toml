[package]
name = "auto_boya"
version = "0.1.0"
edition = "2021"
publish = false

[dependencies]
anyhow = "1"
clap = { version = "4", features = ["derive"] }
colored = "2"
dialoguer = "0.11"
serde = { version = "1", features = ["derive"] }
tabled = "0.14"
thirtyfour = "0.31"
tokio = { version = "1", features = ["time"] }
toml = "0.8"

[dev-dependencies]
nom = "7"
