[package]
name = "diary"
version = "0.1.0"
edition = "2021"
publish = false

[dependencies]
rusqlite = { version = "*", features = ["bundled"] }
time = "*"
clap = { version = "*", features = ["derive"] }
rustyline = "*"
tempfile = "*"
directories = "*"
csv = "*"
serde = { version = "*", features = ["derive"] }
serde_json = "*"
