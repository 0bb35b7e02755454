[package]
name = "commandbar_core"
version = "0.1.0"
edition = "2021"
publish = false

[dependencies]
chrono = "0.4"
enigo = "*"
log = "0.4"
open = "*"
rdev = "*"
regex = "1"
serde = { version = "1", features = ["derive"] }
serde_json = "1"
uuid = { version = "1", features = ["v4"] }
winreg = "*"
