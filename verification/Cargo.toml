[package]
name = "vecstore"
version = "0.1.0"
edition = "2021"
publish = false

[dependencies]
anyhow = "1"
clap = { version = "4", features = ["derive"] }
csv = "1"
docx-rs = "0.4"
encoding_rs = "0.8"
epub = "2"
hnsw_rs = "0.3"
lopdf = "*"
pulldown-cmark = "*"
quick-xml = "0.37"
rand = "0.8"
reqwest = { version = "0.12", default-features = false, features = ["blocking"] }
scraper = "*"
serde = { version = "1", features = ["derive"] }
serde_json = "1"
tempfile = "3"
thiserror = "1"
zip = "*"
