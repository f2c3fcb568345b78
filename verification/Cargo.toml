[package]
name = "lumelo"
version = "0.1.0"
edition = "2021"
publish = false

[dependencies]
serde = { version = "1", features = ["derive"] }
serde_json = "1"
rusqlite = "*"
symphonia = "*"
lofty = "*"
image = { version = "*", default-features = false, features = ["jpeg", "png"] }
dsd-reader = "*"
