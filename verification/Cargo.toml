[package]
name = "dsh_launcher"
version = "0.1.0"
edition = "2021"
publish = false

[dependencies]
serde = { version = "=1.0.229", features = ["derive"] }
serde_json = "=1.0.154"
windows = { version = "=0.61.3", features = ["Win32_Foundation", "Win32_Globalization", "Win32_System_Console", "Win32_System_Environment", "Win32_System_Registry", "Win32_Security_Cryptography", "Win32_UI_WindowsAndMessaging"] }
