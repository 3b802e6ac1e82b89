[package]
name = "yfix"
version = "0.1.0"
edition = "2021"
publish = false

[dependencies]
anstream = "0.6"
anyhow = "1"
arboard = { version = "3", default-features = false }
base64 = "0.22"
chrono = "0.4"
clap = { version = "4", features = ["derive"] }
directories = "5"
is-terminal = "0.4"
libc = "0.2"
regex = "1"
rustix = { version = "0.38", features = ["termios"] }
serde = { version = "1", features = ["derive"] }
serde_json = "1"
serde_yaml = "0.9"
tempfile = "3"
terminal_size = "0.4"
thiserror = "1"
unicode-width = "0.2"
