[package]
name = "ws2812_pio"
version = "0.1.0"
edition = "2021"
publish = false

[dependencies]
cortex-m = "=0.7.10"
cortex-m-rt = "=0.7.7"
embedded-hal = "=0.2.7"
fugit = "=0.3.9"
nb = "=1.1.0"
panic-halt = "=0.2.0"
pio = "=0.2.1"
pio-proc = "=0.2.2"
rp2040-hal = "=0.8.2"
seeeduino-xiao-rp2040 = "=0.4.0"
