[package]
name = "chopsticks"
version = "0.1.0"
edition = "2021"
publish = false

[dependencies]
anyhow = "*"
arboard = "*"
crossterm = "*"
dirs = "*"
fuzzy-matcher = "*"
ratatui = "*"
run_script = "*"
tokio = { version = "*", features = ["rt-multi-thread", "macros", "sync", "time"] }
