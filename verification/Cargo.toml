[package]
name = "axiomhive"
version = "0.1.0"
edition = "2021"
publish = false

[dependencies]
anyhow = "=1.0.104"
candle-core = "*"
candle-transformers = "*"
hex = "=0.4.3"
regex = "=1.13.1"
serde = { version = "=1.0.229", features = ["derive"] }
sha2 = "=0.10.9"
thiserror = "=1.0.69"
tokenizers = "*"
z3 = "*"
