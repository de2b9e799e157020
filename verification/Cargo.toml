[package]
name = "microfft"
version = "0.1.0"
edition = "2021"
publish = false

[dependencies]
cortex-m = "*"
cortex-m-rt = "*"
panic-semihosting = "*"
stm32f3xx-hal = { version = "*", features = ["stm32f303xc"] }

[dev-dependencies]
rustfft = "*"
