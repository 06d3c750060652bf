[package]
name = "dlt_grep"
version = "0.2.0"
edition = "2021"
publish = false

[dependencies]
dlt-core = "*"
regex = "1"
anyhow = "1"
clap = { version = "4", features = ["derive"] }
rayon = "1"
walkdir = "2"
flate2 = "1"
zstd = "0.13"
