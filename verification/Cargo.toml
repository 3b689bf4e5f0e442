[package]
name = "octointel"
version = "0.1.0"
edition = "2021"
publish = false

[dependencies]
regex = "1"
clap = { version = "4", features = ["derive"] }
colored = "*"
futures = "0.3"
indicatif = "*"
sysinfo = "*"
tokio = { version = "1", features = ["full"] }
