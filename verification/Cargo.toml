[package]
name = "trafmon"
version = "0.3.0"
edition = "2021"
publish = false

[dependencies]
sysinfo = "0.33"
serde = { version = "1", features = ["derive"] }
once_cell = "1"
ferrisetw = "1.2"
windows = { version = "0.58", features = ["Win32_Foundation", "Win32_Security", "Win32_System_Threading", "Win32_UI_Shell", "Win32_UI_WindowsAndMessaging"] }
