[package]
name = "anachro"
version = "0.1.0"
edition = "2021"
publish = false

[dependencies]
heapless = "0.7"
postcard = { version = "0.7", features = ["use-std"] }
serde = { version = "1", features = ["derive"] }
rand = "0.8"
bbqueue = "0.4"
embedded-hal = "0.2"
embedded-dma = "0.1"
nrf52840-hal = "0.12"
cortex-m = "0.7"
