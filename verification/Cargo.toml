[package]
name = "localdrop"
version = "0.1.0"
edition = "2021"
publish = false

[dependencies]
sanitize-filename = "*"
mime_guess = "*"
uuid = { version = "*", features = ["v4"] }
serde = { version = "*", features = ["derive"] }
serde_json = "*"
tokio = { version = "*", features = ["full"] }
tokio-util = { version = "*", features = ["codec", "io"] }
warp = { version = "*", features = ["tls"] }
reqwest = { version = "*", default-features = false, features = ["rustls-tls", "json", "multipart", "stream"] }
mdns-sd = "*"
libmdns = "*"
rcgen = "*"
dirs-next = "*"
if-addrs = "*"
bytes = "*"
futures-util = "*"
once_cell = "*"
infer = "*"
pin-project-lite = "*"
