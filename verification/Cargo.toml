[package]
name = "planetoid"
version = "0.1.0"
edition = "2021"
publish = false

[dependencies]
log = "0.4"
macroquad = { version = "0.3", features = ["audio"] }
serde = { version = "1", features = ["derive"] }
serde_json = "1"
simple_logger = "4"
structopt = "0.3"
tungstenite = { version = "0.17", default-features = false }
url = "2"
