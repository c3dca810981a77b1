[package]
name = "cpu_frontier"
version = "0.1.0"
edition = "2021"
publish = false

[dependencies]
levenshtein = "*"
chrono = "*"
serde = { version = "*", features = ["derive"] }
serde_json = "*"
rayon = "*"
anyhow = "*"
