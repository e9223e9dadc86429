[package]
name = "sparmos"
version = "0.1.0"
edition = "2021"
publish = false

[dependencies]
midly = "=0.5.3"
tobj = { version = "=4.0.5", default-features = false }
serde = { version = "=1.0.229", features = ["derive"] }
serde_json = "=1.0.154"
slotmap = "=1.1.1"
indexmap = "2"
