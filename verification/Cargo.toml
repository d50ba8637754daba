[package]
name = "winfree"
version = "0.1.0"
edition = "2021"
publish = false

[dependencies]
serde = { version = "1", features = ["derive"] }
serde_json = "1"
dioxus = "0.3"
platform-dirs = "0.3"
rust-embed = "6"
tray-item = "0.7"
winreg = "0.50"
winapi = { version = "0.3", features = ["minwindef", "ntdef", "windef", "winerror", "processthreadsapi", "psapi", "winnt", "winreg", "winuser"] }
