[package]
name = "docgen"
version = "0.1.0"
edition = "2021"
publish = false

[dependencies]
pulldown-cmark = { version = "0.10", default-features = false }
serde = { version = "1", features = ["derive"] }
serde_json = "1"
serde_yaml = "0.9"
handlebars = "4"
docx-rs = "0.4"
genpdf = "0.2"
pyo3 = "0.20"
tempfile = "3"
anyhow = "1"
