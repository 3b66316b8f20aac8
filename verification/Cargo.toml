[package]
name = "denshi"
version = "0.1.0"
edition = "2021"
publish = false

[dependencies]
enclose = "1"
log = "0.4"
nanoid = "0.3"
port_check = "0.1"
serde = { version = "1", features = ["derive"] }
serde_json = "1"
tiny_http = "0.6"
web-view = "*"
