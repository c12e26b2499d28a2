[package]
name = "csv_col_stats"
version = "0.1.0"
edition = "2021"
publish = false

[dependencies]
clap = { version = "*", features = ["derive"] }
csv = "*"
lexical-core = "*"
serde = { version = "*", features = ["derive"] }
serde_json = "*"
sketches-ddsketch = "*"
tabled = "*"
thiserror = "*"
