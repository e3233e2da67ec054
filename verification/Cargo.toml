[package]
name = "gifvault"
version = "0.1.0"
edition = "2021"
publish = false

[dependencies]
rusqlite = { version = "=0.32.1", features = ["bundled"] }
image = { version = "=0.25.10", default-features = false, features = ["gif", "png", "jpeg", "webp"] }
directories = "=5.0.1"
uuid = { version = "=1.29.0", features = ["v4"] }
zip = { version = "=2.6.1", default-features = false, features = ["deflate"] }
reqwest = { version = "=0.12.28", default-features = false, features = ["rustls-tls"] }
rfd = { version = "=0.15.4", default-features = false, features = ["xdg-portal", "tokio"] }
clipboard-win = "5"
