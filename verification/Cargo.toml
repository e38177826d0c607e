[package]
name = "samari_catcher"
version = "0.1.0"
edition = "2021"
publish = false

[dependencies]
similar = "*"
url = "*"
anyhow = "*"
egui = "*"
futures-util = { version = "*", features = ["sink"] }
image = { version = "*", default-features = false, features = ["png"] }
log = "*"
once_cell = "*"
serde = { version = "*", features = ["derive"] }
serde_json = "*"
syntect = { version = "*", default-features = false, features = ["default-syntaxes", "default-themes", "regex-fancy"] }
tokio = { version = "*", features = ["rt-multi-thread", "net", "io-util", "sync", "time", "macros"] }
tokio-tungstenite = { version = "*", features = ["rustls-tls-webpki-roots"] }
