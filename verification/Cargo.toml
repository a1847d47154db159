[package]
name = "phupload"
version = "0.1.0"
edition = "2021"
publish = false

[dependencies]
base64 = "=0.23.1"
clap = "=4.6.7"
dirs = "=7.0.0"
heck = "=0.5.0"
log = "=0.4.34"
rand = "=0.10.3"
reqwest = { version = "=0.13.5", default-features = false, features = ["blocking", "multipart", "query"] }
ring = "=0.17.14"
serde = { version = "=1.0.229", features = ["derive"] }
serde_json = "*"
simplelog = "=0.12.2"
toml = "=1.1.7"
