[package]
name = "finale_bridge"
version = "0.1.0"
edition = "2021"
publish = false

[dependencies]
serialport = { version = "4", default-features = false }
serial2 = "*"
crossbeam-channel = "*"
ctrlc = "*"
log = "*"
flexi_logger = "*"
clap = { version = "4", features = ["derive"] }
serde = { version = "1", features = ["derive"] }
toml = "*"
winapi = { version = "0.3", features = ["winuser"] }
