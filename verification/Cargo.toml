[package]
name = "avr_boot"
version = "0.1.0"
edition = "2021"
publish = false

[dependencies]
cfg-if = "=1.0.5"
avr-progmem = "=0.3.3"
avr-tester = "=0.6.4"
panic-halt = "=1.0.0"
const_env--value = "=0.1.2"
