[package]
name = "meetup"
version = "0.1.0"
edition = "2021"
publish = false

[dependencies]
itertools = "0.14"
regex = "1"
log = "0.4"
futures = "0.3"
tokio = { version = "1", features = ["net", "rt", "sync", "time"] }
tonic = { version = "0.12", default-features = false }
