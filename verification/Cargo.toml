[package]
name = "cargo_scan"
version = "0.1.0"
edition = "2021"
publish = false

[dependencies]
anyhow = "1"
cargo-lock = "=11.1.0"
clap = { version = "4", features = ["derive"] }
codespan-reporting = "*"
colored = "*"
env_logger = "*"
inquire = "*"
log = "0.4"
petgraph = "=0.8.3"
proc-macro2 = { version = "1", features = ["span-locations"] }
quote = "1"
serde = { version = "1", features = ["derive"] }
serde_json = "1"
syn = { version = "2", features = ["full", "visit"] }
toml = "*"
walkdir = "2"
