[package]
name = "autoxrandr"
version = "0.1.0"
edition = "2021"
publish = false

[dependencies]
anyhow = "1"
byteorder = "1"
clap = { version = "4", features = ["derive"] }
fork = "*"
proc-lock = "*"
rusqlite = "*"
serde = { version = "1", features = ["derive"] }
serde_json = "1"
shlex = "1"
x11rb = { version = "*", features = ["randr", "screensaver"] }
