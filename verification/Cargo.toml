[package]
name = "hkdump_csv"
version = "0.1.0"
edition = "2021"
publish = false

[dependencies]
glam = { version = "=0.34.1", features = ["bytemuck"] }
bytemuck = "*"
anyhow = "=1.0.104"
clap = { version = "=4.6.7", features = ["derive"] }
log = "=0.4.34"
simplelog = "=0.12.2"
tokio = { version = "=1.53.2", features = ["macros", "rt-multi-thread", "fs", "process", "io-util"] }
