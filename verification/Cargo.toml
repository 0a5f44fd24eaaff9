[package]
name = "shellglass"
version = "0.1.0"
edition = "2021"
publish = false

[dependencies]
anyhow = "=1.0.104"
argon2 = "=0.5.3"
axum = { version = "=0.8.9", features = ["ws"] }
base64 = "=0.22.1"
clap = { version = "=4.6.7", features = ["derive", "env"] }
flate2 = "=1.1.10"
fontdb = "=0.23.0"
futures-util = "=0.3.34"
getrandom = "=0.3.4"
icy_sixel = "=0.7.0"
imagesize = "=0.15.0"
png = "=0.18.1"
portable-pty = "=0.9.0"
reqwest = { version = "=0.12.28", default-features = false, features = ["rustls-tls"] }
reqwest-websocket = "=0.5.1"
russh = "=0.65.0"
rustix = { version = "=1.1.6", features = ["termios"] }
serde = { version = "=1.0.229", features = ["derive"] }
serde_json = "=1.0.154"
sha2 = "=0.10.9"
signal-hook = "=0.3.18"
tokio = { version = "=1.54.1", features = ["full"] }
tokio-stream = { version = "=0.1.19", features = ["sync"] }
toml = "=0.9.12"
tower-http = { version = "=0.6.11", features = ["compression-gzip", "cors"] }
tungstenite = "=0.29.0"
unicode-width = "=0.2.3"
vte = "=0.15.0"
