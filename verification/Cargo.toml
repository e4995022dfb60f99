[package]
name = "recorder"
version = "0.1.0"
edition = "2021"
publish = false

[dependencies]
anyhow = "1"
bytemuck = "1"
clap = "4"
glob = "0.3"
itertools = "*"
num = "0.4"
serde = { version = "1", features = ["derive"] }
serde_yaml = "0.9"
shlex = "1"
