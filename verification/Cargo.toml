[package]
name = "hashchain"
version = "0.1.0"
edition = "2021"
publish = false

[dependencies]
sha2 = "=0.10.9"
hex = "=0.4.3"
ethers = { version = "=2.0.14", default-features = false }
tokio = { version = "1", features = ["macros", "rt"] }
