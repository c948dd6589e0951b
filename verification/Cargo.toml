[package]
name = "require_graph"
version = "0.1.0"
edition = "2021"
publish = false

[dependencies]
full_moon = { version = "=3.0.0", features = ["luau"] }
serde = { version = "=1.0.229", features = ["derive"] }
serde_json = "=1.0.151"
termtree = "=1.0.0"
