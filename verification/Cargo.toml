[package]
name = "md_to_tui"
version = "0.1.0"
edition = "2021"
publish = false

[dependencies]
comrak = { version = "0.18", default-features = false }
ratatui = { version = "0.21", default-features = false }
thiserror = "1"
