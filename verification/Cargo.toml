[package]
name = "replay_rs"
version = "0.2.0"
edition = "2021"
publish = false

[dependencies]
anyhow = "=1.0.104"
ashpd = { version = "=0.13.13", default-features = false, features = ["async-io", "global_shortcuts", "screencast"] }
async-io = "=2.6.0"
chrono = { version = "=0.4.45", default-features = false, features = ["clock", "std"] }
clap = { version = "=4.6.7", features = ["derive"] }
eframe = { version = "=0.37.0", default-features = false, features = ["default_fonts", "glow", "x11"] }
egui_extras = { version = "=0.37.0", default-features = false, features = ["image", "file"] }
env_logger = { version = "=0.11.11", default-features = false }
futures-util = "=0.3.34"
gstreamer = "=0.23.7"
gstreamer-app = "=0.23.5"
ksni = { version = "=0.3.7", features = ["blocking"] }
libc = "=0.2.191"
log = "=0.4.35"
serde = { version = "=1.0.229", features = ["derive"] }
serde_json = "=1.0.154"
signal-hook = "=0.4.6"
windows-sys = { version = "=0.61.2", features = ["Win32_Foundation", "Win32_Graphics_Gdi", "Win32_System_LibraryLoader", "Win32_UI_Input_KeyboardAndMouse", "Win32_UI_Shell", "Win32_UI_WindowsAndMessaging"] }
