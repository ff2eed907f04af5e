[package]
name = "esp-pulser"
version = "0.1.0"
edition = "2021"
publish = false

[dependencies]
anyhow = "1"
bincode = "1"
display-interface-spi = "0.5"
drv2605 = "*"
embedded-graphics = "0.8"
embedded-hal-bus = { version = "*", features = ["std"] }
embedded-svc = "*"
esp-idf-svc = "*"
http = "1"
log = "0.4"
max3010x = "*"
mime = "0.3"
mipidsi = "0.8"
serde = { version = "1", features = ["derive"] }
