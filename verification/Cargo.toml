[package]
name = "rust_journey"
version = "0.1.0"
edition = "2021"
publish = false

[dependencies]
bytes = "1"
flate2 = "1"
rand = "0.8"
jsonxf = "1"
reqwest = { version = "0.11", default-features = false, features = ["json"] }
prost = "0.9"
tokio = { version = "1", features = ["full"] }
futures = "0.3"
tracing = "0.1"
anyhow = "1"
clap = { version = "3", features = ["derive"] }
colored = "2"
mime = "0.3"
