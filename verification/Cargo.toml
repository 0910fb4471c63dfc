[package]
name = "nostos"
version = "0.1.0"
edition = "2021"
publish = false

[dependencies]
aes = "0.8"
ctr = "0.9"
libm = "0.2"
embedded-graphics = "0.8"
static_cell = "2"
embassy-time = "0.5"
embassy-executor = "0.10"
embedded-io-async = "0.7"
block-device-adapters = "0.2"
sdio = "0.5"
esp-hal = { version = "1.2", features = ["esp32s3", "unstable"] }
esp-println = { version = "0.18", features = ["esp32s3"] }
esp-backtrace = { version = "0.20", features = ["esp32s3"] }
esp-rtos = { version = "0.4", features = ["esp32s3"] }
esp-bootloader-esp-idf = { version = "0.6", features = ["esp32s3"] }
