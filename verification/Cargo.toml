[package]
name = "kbmd"
version = "0.1.0"
edition = "2021"
publish = false

[dependencies]
anyhow = "=1.0.104"
atomicwrites = "=0.4.4"
chrono = "=0.4.45"
clap = { version = "=4.6.7", features = ["derive"] }
crossterm = "=0.29.0"
fs4 = "=1.1.0"
notify = "=8.2.1"
pulldown-cmark = { version = "=0.13.6", default-features = false }
ratatui = "=0.29.0"
serde = { version = "=1.0.229", features = ["derive"] }
serde_json = { version = "=1.0.154", features = ["float_roundtrip"] }
serde-saphyr = "=1.3.0"
unicode-width = "=0.2.0"
uuid = { version = "=1.29.0", features = ["v7"] }

[dev-dependencies]
tempfile = "=3.27.0"
