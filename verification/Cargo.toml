[package]
name = "speakstream"
version = "0.1.0"
edition = "2021"
publish = false

[dependencies]
anyhow = "1"
async-openai = "0.28"
async-std = "1"
colored = "2"
ctrlc = "3"
default-device-sink = "0.1"
flume = "0.11"
futures = "0.3"
rodio = "0.17"
tempfile = "3"
tokio = { version = "1", features = ["macros", "rt-multi-thread", "sync", "time"] }
tracing = "0.1"
windows = { version = "0.54", features = ["Win32_Foundation", "Win32_Media_Audio", "Win32_System_Com", "Win32_System_Com_StructuredStorage", "Win32_System_Threading", "Win32_UI_Shell_PropertiesSystem"] }
