[package]
name = "mdx"
version = "0.1.0"
edition = "2021"
publish = false

[dependencies]
regex = "=1.13.1"
anyhow = "=1.0.104"
walkdir = "=2.5.0"
clap = { version = "=4.6.7", features = ["derive"] }
biblatex = "=0.12.0"
docx-rs = "=0.4.22"
image = { version = "=0.25.10", default-features = false, features = ["png", "jpeg"] }
tempfile = "=3.27.0"
chrono = { version = "0.4", default-features = false, features = ["clock"] }
