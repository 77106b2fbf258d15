[package]
name = "event_store"
version = "0.1.0"
edition = "2021"
publish = false

[dependencies]
anyhow = "1"
rusqlite = "*"
solabi = "*"
tracing = "0.1"
url = "2"
