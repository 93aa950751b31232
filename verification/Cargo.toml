[package]
name = "sysmon_tray"
version = "0.1.1"
edition = "2021"
publish = false

[dependencies]
dirs = "6"
serde = { version = "1", features = ["derive"] }
serde_json = "1"
sysinfo = "0.33"
ureq = { version = "3", default-features = false, features = ["json"] }
wmi = "0.14"
