[package]
name = "nibble_torrent_client_hurricaneport"
version = "0.1.0"
edition = "2021"
publish = false

[dependencies]
clap = { version = "4", features = ["derive"] }
hex = "0.4"
httparse = "1"
log = "0.4"
serde = { version = "1", features = ["derive"] }
serde_json = "1"
sha1 = "0.10"
simple_logger = "5"
tokio = { version = "1", features = ["full"] }
url = { version = "2", features = ["serde"] }
