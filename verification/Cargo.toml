[package]
name = "cmkernel"
version = "0.1.0"
edition = "2021"
publish = false

[dependencies]
embedded-hal = "0.2"
nb = "0.1"
vcell = "0.1"
volatile-register = "0.2"
lock_api = "0.4"
