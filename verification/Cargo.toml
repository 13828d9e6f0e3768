[package]
name = "blur_autoclicker"
version = "0.1.0"
edition = "2021"
publish = false

[dependencies]
evdev = "=0.12.2"
x11rb = { version = "=0.13.2", features = ["randr", "xtest"] }
libc = "=0.2.191"
log = "=0.4.35"
serde = { version = "=1.0.229", features = ["derive"] }
serde_json = "=1.0.154"

[dev-dependencies]
windows-sys = { version = "=0.61.2", features = ["Win32_UI_WindowsAndMessaging", "Win32_UI_Input_KeyboardAndMouse"] }
