[package]
name = "lancedb_cluster"
version = "0.1.0"
edition = "2021"
publish = false

[dependencies]
arrow = { version = "*", default-features = false }
arrow-array = "*"
arrow-schema = "*"
arrow-select = "*"
arrow-ord = "*"
hilbert_index = "*"
serde = { version = "1", features = ["derive"] }
serde_json = "1"
