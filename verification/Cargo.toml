[package]
name = "leansticky_core"
version = "0.1.0"
edition = "2021"
publish = false

[dependencies]
anyhow = "1"
directories = "5"
serde = { version = "1", features = ["derive"] }
serde_yaml = "0.9"
single-instance = "0.3"
tempfile = "3"
time = { version = "0.3", features = ["formatting", "macros"] }
ulid = "1"
