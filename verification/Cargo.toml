[package]
name = "uiautomation"
version = "0.1.0"
edition = "2021"
publish = false

[dependencies]
windows = { version = "=0.57.0", features = ["Win32_Foundation", "Win32_System_Com", "Win32_UI_Accessibility"] }
