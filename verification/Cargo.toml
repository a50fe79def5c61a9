[package]
name = "nostr_ratatui"
version = "0.1.0"
edition = "2021"
publish = false

[dependencies]
nostr-sdk = "*"
unicode-segmentation = "*"
unicode-width = "*"
ratatui = { version = "*", default-features = false, features = ["crossterm"] }
ratatui-image = { version = "*", default-features = false, features = ["crossterm"] }
crossterm = "*"
image = { version = "*", default-features = false, features = ["png", "jpeg", "gif", "webp"] }
tokio = { version = "*", features = ["rt-multi-thread", "macros", "sync", "time"] }
reqwest = { version = "*", default-features = false, features = ["json", "rustls-tls"] }
resvg = { version = "*", default-features = false }
serde = { version = "*", features = ["derive"] }
serde_json = "*"
clap = { version = "*", default-features = false, features = ["std", "derive", "env", "help", "usage", "error-context"] }
anyhow = "*"
chrono = { version = "*", default-features = false, features = ["std", "clock"] }
