[package]
name = "multiroblox"
version = "0.1.0"
edition = "2021"
publish = false

[dependencies]
aes = "=0.8.4"
aes-gcm = "=0.10.3"
base64 = "=0.22.1"
cbc = "=0.1.2"
pbkdf2 = "=0.12.2"
scrypt = { version = "=0.11.0", default-features = false }
sha2 = "=0.10.9"
rand = "=0.8.8"
url = "=2.5.8"
urlencoding = "=2.1.3"
serde_json = "=1.0.154"
chrono = "=0.4.45"
uuid = { version = "=1.29.0", features = ["v4"] }
reqwest = { version = "=0.12.28", default-features = false, features = ["json", "multipart"] }
tokio = { version = "=1.54.1", features = ["time", "process", "io-util", "macros", "rt-multi-thread", "sync", "fs"] }
zip = { version = "2", default-features = false, features = ["deflate"] }

[dev-dependencies]
regex = "=1.13.1"
