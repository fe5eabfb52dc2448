[package]
name = "fuckace"
version = "0.1.0"
edition = "2021"
publish = false

[dependencies]
sysinfo = "=0.33.1"
serde = { version = "1", features = ["derive"] }
base64 = "0.22"
winreg = "0.55"
windows = { version = "0.58", features = ["Win32_Foundation", "Win32_Security", "Win32_System_Threading", "Win32_System_Diagnostics_ToolHelp", "Win32_System_ProcessStatus", "Win32_System_Com", "Win32_UI_Shell"] }
