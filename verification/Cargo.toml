[package]
name = "bluepill"
version = "0.1.0"
edition = "2021"
publish = false

[dependencies]
heapless = "0.8"
time = { version = "0.3", default-features = false }
embedded-nrf24l01 = "0.2"
embedded-hal = "0.2"
nb = "1"
cortex-m = "0.7"
cortex-m-rt = "0.7"
stm32f1xx-hal = { version = "0.10", features = ["stm32f103", "rt"] }
