[package]
name = "popcap_formats"
version = "0.1.0"
edition = "2021"
publish = false

[dependencies]
flate2 = "=1.1.10"
oxidelta = "=0.1.4"
image = { version = "=0.25.10", default-features = false, features = ["png", "gif"] }
serde = { version = "=1.0.229", features = ["derive"] }
serde_json = "=1.0.154"
thiserror = "=2.0.21"
anyhow = "=1.0.104"
byteorder = "=1.5.0"
quick-xml = "=0.37.5"
roxmltree = "=0.20.0"
regex = "=1.13.1"
rayon = "=1.12.0"
bitflags = "=2.13.2"
scraper = "*"
