[package]
name = "uggo"
version = "0.1.0"
edition = "2021"
publish = false

[dependencies]
anyhow = "1"
ddragon = { version = "*", default-features = false }
native-tls = "0.2"
ratatui = "*"
serde = { version = "1", features = ["derive"] }
thiserror = "1"
tui-input = "*"
tui-logger = "*"
ureq = { version = "2", default-features = false, features = ["json", "native-tls"] }

[dev-dependencies]
base64 = "0.22"
