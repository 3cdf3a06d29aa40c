[package]
name = "graph_synth"
version = "0.1.0"
edition = "2021"
publish = false

[dependencies]
quick-xml = "*"
serde = { version = "*", features = ["derive"] }
serde_json = "*"
