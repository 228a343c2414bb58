[package]
name = "campus_store"
version = "0.1.0"
edition = "2021"
publish = false

[dependencies]
candid = "*"
ic-cdk = "*"
ic-stable-structures = "*"
regex = "1"
serde = { version = "1", features = ["derive"] }
