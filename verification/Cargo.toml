[package]
name = "memory_viewer"
version = "0.1.0"
edition = "2021"
publish = false

[dependencies]
chrono = "=0.4.45"
eframe = { version = "=0.33.3", default-features = false, features = ["default_fonts", "glow", "x11"] }
egui_extras = { version = "=0.33.3", default-features = false }
sysinfo = "=0.37.2"
windows-sys = { version = "=0.52.0", features = ["Win32_Foundation", "Win32_System_Diagnostics_Debug", "Win32_System_Memory", "Win32_System_Threading"] }
