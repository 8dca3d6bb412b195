[package]
name = "monochora"
version = "0.1.0"
edition = "2021"
publish = false

[dependencies]
gif = "0.13"
rusttype = "0.9"
image = "0.24"
imageproc = "0.23"
crossterm = "*"
rayon = "*"
tokio = { version = "1", features = ["sync", "time", "macros", "rt-multi-thread"] }
clap = { version = "4", features = ["derive"] }
tracing = "*"
tracing-subscriber = { version = "*", features = ["env-filter"] }
thiserror = "*"
url = "*"
reqwest = { version = "*", default-features = false }
tempfile = "*"
