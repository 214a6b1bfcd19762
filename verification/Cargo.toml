[package]
name = "tauri_shell"
version = "0.1.0"
edition = "2021"
publish = false

[dependencies]
regex = "1"
url = "2"
serde = { version = "1", features = ["derive"] }
serde_json = "1"
tokio = { version = "1", features = ["full"] }
reqwest = { version = "0.12", default-features = false, features = ["json", "rustls-tls"] }
clap = { version = "4", features = ["derive", "env"] }
dirs = "5"
fs2 = "0.4"
once_cell = "1"
chrono = "0.4"
log = "0.4"
anyhow = "1"
thiserror = "1"
open = "5"
ctrlc = "3"
async-trait = "0.1"
