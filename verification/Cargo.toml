[package]
name = "cantools"
version = "0.1.0"
edition = "2021"
publish = false

[dependencies]
ablf = "*"
anyhow = "*"
can-dbc = "*"
clap = { version = "*", features = ["derive"] }
clap_complete = "*"
clap_mangen = "*"
crossterm = "*"
libc = "*"
mf4-rs = "*"
ratatui = "*"
serde = { version = "*", features = ["derive"] }
thiserror = "*"
toml = "*"
