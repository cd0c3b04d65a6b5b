[package]
name = "ez_wishlist_overlay"
version = "0.1.0"
edition = "2021"
publish = false

[dependencies]
ab_glyph = "0.2"
anyhow = "1"
clap = { version = "4", features = ["derive"] }
crossbeam-channel = "0.5"
egui = { version = "0.29", default-features = false }
fontdue = "0.9"
image = { version = "=0.25.10", default-features = false, features = ["png", "jpeg", "webp"] }
imageproc = { version = "=0.25.1", default-features = false }
json5 = "=0.4.1"
openvr = "=0.9.0"
openvr_sys = "=2.1.4"
parking_lot = "0.12"
regex = "=1.13.1"
serde = { version = "1", features = ["derive"] }
serde_json = { version = "=1.0.154", features = ["float_roundtrip"] }
time = { version = "=0.3.55", features = ["formatting", "local-offset", "macros"] }
tiny-skia = "0.11"
tracing = "0.1"
tracing-subscriber = { version = "0.3", features = ["env-filter"] }
ureq = { version = "2", features = ["json"] }
webp = { version = "0.3", default-features = false }
windows = { version = "0.58", features = ["Win32_Foundation", "Win32_Graphics_Direct3D", "Win32_Graphics_Direct3D11", "Win32_Graphics_Dxgi", "Win32_Graphics_Dxgi_Common", "Win32_System_Diagnostics_Debug", "Win32_UI_WindowsAndMessaging"] }
