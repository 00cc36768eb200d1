[package]
name = "logseq_preprocessor"
version = "0.1.0"
edition = "2021"
publish = false

[dependencies]
anyhow = "*"
clap = { version = "*", features = ["derive"] }
rayon = "*"
serde = { version = "*", features = ["derive"] }
serde_json = "*"
walkdir = "*"
