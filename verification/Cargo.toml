[package]
name = "led_pulse"
version = "0.1.0"
edition = "2021"
publish = false

[dependencies]
cortex-m = "*"
cortex-m-rt = "*"
microbit = "*"
panic-halt = "*"
