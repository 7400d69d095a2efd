[package]
name = "grapehul"
version = "0.1.0"
edition = "2021"
publish = false

[dependencies]
async-trait = "0.1"
axum = "0.6"
futures = "0.3"
hyper = "0.14"
serde = "1"
serde_json = "1"
