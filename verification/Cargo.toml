[package]
name = "json_diff"
version = "0.1.0"
edition = "2021"
publish = false

[dependencies]
serde_json = "1"
chrono = { version = "0.4", default-features = false, features = ["std"] }
colored = "1"
structopt = "0.3"
