[package]
name = "rwshell"
version = "0.1.0"
edition = "2021"
publish = false

[dependencies]
base64 = "=0.22.1"
uuid = { version = "*", features = ["v4"] }
tokio = { version = "*", features = ["full"] }
tokio-util = "*"
tokio-tungstenite = "*"
futures-util = "*"
axum = { version = "*", features = ["ws"] }
portable-pty = "*"
terminal_size = "*"
termios = "*"
libc = "*"
clap = { version = "*", features = ["derive"] }
serde = { version = "*", features = ["derive"] }
serde_json = "*"
tracing = "*"
tracing-subscriber = { version = "*", features = ["env-filter"] }
atty = "*"
mime_guess = "*"
url = "*"

[dev-dependencies]
