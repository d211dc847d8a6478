[package]
name = "cloudreve_vfs"
version = "0.1.0"
edition = "2021"
publish = false

[dependencies]
anyhow = "=1.0.104"
bytes = "=1.12.1"
chrono = "=0.4.45"
fuser = { version = "=0.15.1", default-features = false }
libc = "=0.2.191"
nfs3_server = "=0.11.1"
reqwest = { version = "=0.12.28", default-features = false, features = ["json"] }
serde = { version = "=1.0.229", features = ["derive"] }
serde_json = "=1.0.154"
sha2 = "=0.10.9"
showfile = "=0.1.1"
sys-locale = "=0.3.2"
tokio = { version = "=1.54.1", features = ["full"] }
tracing = "=0.1.44"
urlencoding = "=2.1.3"
uuid = { version = "=1.29.0", features = ["v4"] }
