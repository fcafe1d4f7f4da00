[package]
name = "terminal_use"
version = "0.1.0"
edition = "2021"
publish = false

[dependencies]
regex = "1"
semver = "1"
unicode-width = "0.2"
anyhow = "1"
clap = { version = "4", features = ["derive"] }
serde = { version = "1", features = ["derive"] }
serde_json = "1"
tokio = { version = "1", features = ["full"] }
nix = { version = "0.30", features = ["term", "process", "signal", "poll", "fs", "ioctl", "user"] }
base64 = "0.22"
alacritty_terminal = "0.25"
vt100 = "0.15"
ab_glyph = "0.2"
imageproc = { version = "0.25", default-features = false }
image = { version = "0.25", default-features = false, features = ["png"] }
reqwest = { version = "0.12", default-features = false, features = ["json", "rustls-tls"] }
