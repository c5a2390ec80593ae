[package]
name = "beads_tui"
version = "0.1.0"
edition = "2021"
publish = false

[dependencies]
anyhow = "*"
chrono = "*"
clap = { version = "*", features = ["derive"] }
crossterm = "*"
nix = { version = "*", features = ["signal"] }
ratatui = "*"
rusqlite = { version = "*", features = ["bundled"] }
tokio = { version = "*", features = ["macros", "rt-multi-thread"] }
