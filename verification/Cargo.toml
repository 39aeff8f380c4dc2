[package]
name = "browser_search"
version = "0.1.0"
edition = "2021"
publish = false

[dependencies]
nucleo = "*"
jiff = "*"
serde = { version = "*", features = ["derive"] }
serde_json = "*"
plist = "*"
rusqlite = { version = "*", features = ["bundled"] }
tempfile = "*"
dirs = "*"
rayon = "*"
url = "*"
reqwest = { version = "*", default-features = false, features = ["blocking", "rustls-tls"] }
osascript = "*"
bincode = "1"
log = "*"
env_logger = "*"
