[package]
name = "momentrace"
version = "0.1.0"
edition = "2021"
publish = false

[dependencies]
chrono = "0.4"
rusqlite = { version = "0.32", features = ["bundled"] }
parking_lot = "0.12"
serde = { version = "1", features = ["derive"] }
base64 = "0.22"
image = { version = "0.25", default-features = false, features = ["png"] }
windows = { version = "0.58", features = ["Win32_Foundation", "Win32_System_Threading", "Win32_System_SystemInformation", "Win32_UI_Input_KeyboardAndMouse", "Win32_UI_WindowsAndMessaging", "Win32_Graphics_Gdi", "Win32_Storage_FileSystem", "Win32_UI_Shell"] }
