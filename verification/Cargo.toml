[package]
name = "download_cli"
version = "0.1.0"
edition = "2021"
publish = false

[dependencies]
reqwest = { version = "0.10", default-features = false, features = ["stream"] }
tokio = { version = "0.2", features = ["macros", "rt-threaded", "stream"] }
indicatif = "0.15"
ctrlc = "3"
positioned-io-preview = "0.3"
serde = "1"
serde_derive = "1"
serde_json = "1"
structopt = "0.3"
structopt-derive = "0.4"
