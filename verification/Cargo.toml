[package]
name = "coder"
version = "0.1.0"
edition = "2021"
publish = false

[dependencies]
crossterm = "*"
portable-pty = "*"
serde = { version = "1", features = ["derive"] }
serde_json = "1"
windows-sys = { version = "*", features = ["Win32_Foundation", "Win32_System_Console"] }
