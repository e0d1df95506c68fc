[package]
name = "tagtiger"
version = "0.1.0"
edition = "2021"
publish = false

[dependencies]
anyhow = "1"
arboard = { version = "3", default-features = false, features = ["image-data"] }
async-trait = "0.1"
chrono = { version = "0.4", default-features = false, features = ["std", "alloc"] }
clap = { version = "4", features = ["derive"] }
dirs = "*"
futures = "0.3"
hmac = "0.12"
image = { version = "0.25", default-features = false, features = ["jpeg", "png", "gif", "bmp", "webp"] }
mp4ameta = "*"
regex = "1"
reqwest = { version = "0.13", default-features = false, features = ["json", "query", "rustls-no-provider"] }
rfd = { version = "*", default-features = false, features = ["xdg-portal", "tokio"] }
rustls = { version = "0.23", default-features = false, features = ["ring", "std", "tls12"] }
serde = { version = "1", features = ["derive"] }
serde_json = "1"
sha2 = "0.10"
thiserror = "2"
tokio = { version = "1", features = ["rt-multi-thread", "macros", "time"] }
tracing-subscriber = { version = "0.3", features = ["env-filter"] }
zbus = "5"
