[package]
name = "browserless-html-to-pdf"
version = "0.1.0"
edition = "2021"
publish = false

[dependencies]
axum = { version = "0.8", features = ["multipart"] }
base64 = "0.22"
dotenvy = "0.15"
hayro = "*"
hex = "0.4"
hmac = "0.12"
image = { version = "0.25", default-features = false, features = ["png", "jpeg"] }
ironpress = "*"
multer = "3"
opendal = { version = "*", default-features = false, features = ["services-fs", "services-memory"] }
scalar-doc = "*"
serde = { version = "1", features = ["derive"] }
serde_json = "1"
sha2 = "0.10"
tokio = { version = "1", features = ["full"] }
tower = { version = "0.5", features = ["util"] }
tower_governor = "0.7"
tower-http = { version = "0.6", features = ["limit", "timeout"] }
uuid = { version = "1", features = ["v4"] }
