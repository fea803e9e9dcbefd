[package]
name = "sheet_stats"
version = "0.1.0"
edition = "2021"
publish = false

[dependencies]
calamine = "*"
serde = { version = "*", features = ["derive"] }
serde_json = "*"
rustfft = "*"
num-complex = "*"

[dev-dependencies]
zip = { version = "*", default-features = false }
