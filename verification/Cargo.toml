[package]
name = "crown"
version = "0.1.0"
edition = "2021"
publish = false

[dependencies]
regex = "=1.13.1"
similar = "=2.7.0"
unicode-width = "0.2"
serde_json = "=1.0.154"
pulldown-cmark = { version = "0.13", default-features = false }
textwrap = "0.16"
syntect = { version = "5", default-features = false, features = ["default-fancy"] }
two-face = { version = "0.4", default-features = false, features = ["syntect-fancy"] }
tokio = { version = "1", features = ["full"] }
reqwest = { version = "0.12", default-features = false, features = ["json", "stream", "rustls-tls"] }
interprocess = { version = "2", features = ["tokio"] }
crossterm = "0.28"
ratatui = "0.29"
tui-textarea = "0.7"
anyhow = "1"
serde = { version = "1", features = ["derive"] }
nanoid = "0.4"
libc = "0.2"
futures-util = "0.3"
which = "7"
