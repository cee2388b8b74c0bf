[package]
name = "plato"
version = "0.1.0"
edition = "2021"
publish = false

[dependencies]
entities = "=1.0.1"
unicode-normalization = "=0.1.26"
caseless = "=0.2.2"
levenshtein = "=1.0.5"
regex = "=1.13.1"
titlecase = "=3.6.0"
septem = "*"
serde = { version = "=1.0.229", features = ["derive"] }
serde_json = "=1.0.154"
