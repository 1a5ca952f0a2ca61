[package]
name = "vlessok"
version = "0.1.0"
edition = "2021"
publish = false

[dependencies]
url = "=2.5.8"
serde = { version = "=1.0.229", features = ["derive"] }
serde_json = "=1.0.154"
log = "=0.4.35"
env_logger = { version = "=0.11.11", default-features = false }
ureq = "=2.12.1"
tempfile = "=3.27.0"
sysinfo = { version = "=0.33.1", default-features = false, features = ["system"] }
windows = { version = "=0.57.0", features = ["Win32_Foundation", "Win32_Security", "Win32_System_JobObjects", "Win32_System_Threading", "Win32_UI_WindowsAndMessaging"] }
