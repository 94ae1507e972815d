[package]
name = "epub_count"
version = "0.1.0"
edition = "2021"
publish = false

[dependencies]
clap = { version = "=4.6.7", features = ["derive"] }
memmap2 = "=0.9.12"
scraper = { version = "=0.29.0", default-features = false }
walkdir = "=2.5.0"
zip = { version = "=8.6.0", default-features = false, features = ["deflate"] }
