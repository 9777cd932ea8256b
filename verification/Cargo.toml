[package]
name = "feramdisk_firmware"
version = "0.1.0"
edition = "2021"
publish = false

[dependencies]
cortex-m-rt = "=0.7.7"
embassy-executor = { version = "=0.10.0", features = ["platform-spin", "executor-thread"] }
embassy-futures = "=0.1.2"
embassy-stm32 = { version = "=0.6.0", features = ["stm32g431cb", "time-driver-any"] }
embassy-time = "=0.5.1"
embassy-usb-driver = "=0.2.2"
embedded-hal = "=1.0.0"
panic-halt = "=1.0.0"
rtt-target = "=0.6.2"
