[package]
name = "pagedown"
version = "0.1.0"
edition = "2021"
publish = false

[dependencies]
pulldown-cmark = { version = "=0.13.6", default-features = false }
syntect = { version = "=5.3.0", default-features = false, features = ["default-fancy"] }
printpdf = { version = "=0.12.8", features = ["svg", "png", "jpeg"] }
lopdf = "=0.35.0"
serde = { version = "=1.0.229", features = ["derive"] }
toml = "=0.8.23"
clap = { version = "=4.6.7", features = ["derive"] }
anyhow = "=1.0.104"
