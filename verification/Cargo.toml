[package]
name = "cdm_linker"
version = "0.1.0"
edition = "2021"
publish = false

[dependencies]
anyhow = "1"
ar = "0.9"
base64 = "0.22"
clap = { version = "4", features = ["derive"] }
rustc-stable-hash = "0.1"
strip-ansi-escapes = "0.2"
thiserror = "*"
tracing = "0.1"
tracing-subscriber = "0.3"
