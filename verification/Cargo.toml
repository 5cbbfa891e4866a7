[package]
name = "evo"
version = "0.6.0"
edition = "2021"
publish = false

[dependencies]
argon2 = "0.5"
axum = "0.8"
directories = "*"
flate2 = "1"
getrandom = "0.3"
hayro = "*"
image = { version = "*", default-features = false, features = ["png"] }
lopdf = "*"
mlua = { version = "*", features = ["lua54", "vendored"] }
serde = { version = "1", features = ["derive"] }
serde_json = "1"
sha2 = "0.10"
tar = "0.4"
tokio = { version = "1", features = ["rt-multi-thread", "net", "signal", "sync", "time", "fs"] }
tokio-stream = "0.1"
tokio-util = "0.7"
totp-rs = { version = "*", features = ["qr"] }
ureq = "3"
