[package]
name = "devtools_link"
version = "0.1.0"
edition = "2021"
publish = false

[dependencies]
futures = "0.3"
log = "0.4"
rand = "0.7"
regex = "1"
serde_json = "1"
websocket = { version = "0.26", default-features = false, features = ["sync"] }
