[package]
name = "riku"
version = "0.1.0"
edition = "2021"
publish = false

[dependencies]
earcutr = "=0.5.0"
git2 = { version = "=0.20.4", default-features = false }
clap = { version = "=4.5.61", features = ["derive"] }
serde = { version = "=1.0.229", features = ["derive"] }
serde_json = "=1.0.154"
dirs = "=6.0.0"
tempfile = "=3.27.0"
thiserror = "=2.0.21"
rustyline = "=17.0.2"
