[package]
name = "emd"
version = "0.1.0"
edition = "2021"
publish = false

[dependencies]
anyhow = "*"
aya = "*"
aya-log = "*"
caps = "*"
clap = { version = "*", features = ["derive"] }
env_logger = "*"
indicatif = "*"
indicatif-log-bridge = "*"
libc = "*"
log = "*"
lz4_flex = "*"
procfs = "*"
tokio = { version = "*", features = ["macros", "rt"] }
zstd = "*"
