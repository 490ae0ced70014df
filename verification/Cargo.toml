[package]
name = "valira-desktop"
version = "0.1.0"
edition = "2021"
publish = false

[dependencies]
base64 = "=0.22.1"
boringtun = { version = "=0.7.1", default-features = false }
directories = "=6.0.0"
getrandom = { version = "=0.3.4", features = ["std"] }
libc = "=0.2.191"
reqwest = { version = "=0.12.28", default-features = false, features = ["blocking", "json", "rustls-tls-webpki-roots-no-provider"] }
rustls = { version = "=0.23.46", default-features = false, features = ["ring", "std", "tls12"] }
serde = { version = "=1.0.229", features = ["derive"] }
serde_json = "=1.0.154"
slint = { version = "=1.18.1", default-features = false, features = ["std", "compat-1-2"] }
tiny-skia = { version = "=0.11.4", default-features = false, features = ["std"] }
tun-rs = { version = "=2.8.16", default-features = false, features = ["interruptible"] }
x25519-dalek = { version = "=2.0.1", features = ["static_secrets"] }
