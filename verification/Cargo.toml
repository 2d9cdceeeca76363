[package]
name = "revier_analysis"
version = "0.1.0"
edition = "2021"
publish = false

[dependencies]
sha2 = "0.10"
hex = "0.4"
encoding_rs = "0.8"
globset = "0.4"
chrono = "0.4"
gix = "*"
gix-blame = "*"
gix-diff = "*"
gix-object = "*"
duckdb = "*"
serde = { version = "1", features = ["derive"] }
serde_json = "1"
clap = { version = "4", features = ["derive"] }
anyhow = "1"
thiserror = "*"
include_dir = "0.7"
