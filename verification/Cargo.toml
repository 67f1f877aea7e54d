[package]
name = "one_collect"
version = "0.1.0"
edition = "2021"
publish = false

[dependencies]
anyhow = "1"
twox-hash = "1.6"
windows-sys = { version = "0.59", features = ["Win32_Foundation", "Win32_System_Diagnostics_Etw"] }
