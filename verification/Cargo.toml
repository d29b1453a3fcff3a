[package]
name = "sccm_rc"
version = "0.1.0"
edition = "2021"
publish = false

[dependencies]
ironrdp-core = "=0.1.5"
ironrdp-pdu = "=0.7.0"
ironrdp-graphics = "=0.7.0"
ironrdp-svc = "=0.6.0"
font8x8 = "=0.3.1"
anyhow = "1"
clap = { version = "4", features = ["derive"] }
clipboard-win = "5"
image = { version = "0.25", default-features = false, features = ["png"] }
socket2 = "0.5"
softbuffer = { version = "0.4", default-features = false, features = ["x11"] }
windows = { version = "0.61", features = ["Win32_Foundation", "Win32_NetworkManagement_NetManagement", "Win32_Security", "Win32_Security_Authentication_Identity", "Win32_Security_Credentials", "Win32_System_Services"] }
winit = { version = "0.30", default-features = false, features = ["rwh_06", "x11"] }
ab_glyph = "0.2"
tokio = { version = "1", features = ["macros", "net", "rt-multi-thread", "sync", "time", "io-util"] }
tracing = "0.1"
tracing-subscriber = { version = "0.3", features = ["env-filter"] }
