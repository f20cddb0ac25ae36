[package]
name = "editoast"
version = "0.1.0"
edition = "2021"
publish = false

[dependencies]
chrono = "*"
iso8601 = "*"
mvt = "*"
serde = { version = "*", features = ["derive"] }
serde_json = "*"
