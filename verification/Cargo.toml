[package]
name = "castr"
version = "0.1.0"
edition = "2021"
publish = false

[dependencies]
anyhow = "1"
audiopus = "*"
bytes = "1"
dirs = "5"
hex = "0.4"
hmac = "0.12"
libc = "0.2"
mdns-sd = "0.11"
openh264 = "0.6"
postcard = { version = "1", features = ["alloc"] }
quinn = "0.11"
rand = "0.8"
rcgen = "0.13"
rustls = { version = "0.23", default-features = false, features = ["ring", "std", "tls12"] }
serde = { version = "1", features = ["derive"] }
sha2 = "0.10"
socket2 = "0.5"
spake2 = "0.4"
tokio = { version = "1", features = ["rt-multi-thread", "net", "time", "sync", "macros"] }
toml = "0.8"
tracing = "0.1"
tracing-subscriber = { version = "0.3", features = ["env-filter"] }
windows = { version = "0.58", features = ["Win32_Foundation", "Win32_Graphics_Direct3D", "Win32_Graphics_Direct3D11", "Win32_Graphics_Dxgi", "Win32_Graphics_Dxgi_Common", "Win32_Media_Audio", "Win32_Media_MediaFoundation", "Win32_System_Com", "Win32_System_Com_StructuredStorage", "Win32_System_Variant", "Win32_System_Ole"] }
