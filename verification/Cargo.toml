[package]
name = "bibparse"
version = "0.1.0"
edition = "2021"

[dependencies]
nom = "4"
serde = { version = "1", features = ["derive"] }
