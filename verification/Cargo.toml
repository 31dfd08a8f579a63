[package]
name = "title_verifier"
version = "0.1.0"
edition = "2021"
publish = false

[dependencies]
winterfell = "0.13.1"
candid = "0.10"
ic-cdk = "0.20"
serde = { version = "1", features = ["derive"] }
