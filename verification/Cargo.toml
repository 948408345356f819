[package]
name = "anvomidav"
version = "0.1.0"
edition = "2021"
publish = false

[dependencies]
clap = { version = "=4.6.7", features = ["derive"] }
miette = { version = "=7.6.0", features = ["fancy"] }
thiserror = "=1.0.69"
serde = { version = "=1.0.229", features = ["derive"] }
serde_json = "=1.0.154"
tower-lsp = "=0.20.0"
tokio = { version = "=1.54.1", features = ["full"] }
dashmap = "=5.5.3"
ropey = "=1.6.1"
rustyline = "=14.0.0"
ordered-float = { version = "4", features = ["serde"] }
