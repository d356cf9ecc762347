[package]
name = "pdfmuse_core"
version = "0.1.0"
edition = "2021"
publish = false

[dependencies]
lopdf = "=0.46.0"
base64 = "=0.22.1"
unicode-normalization = "=0.1.26"
serde = { version = "=1.0.229", features = ["derive"] }
serde_json = "=1.0.154"
rayon = "=1.12.0"
pdf_encoding = "*"

[dev-dependencies]
serde_json = "=1.0.154"
