[package]
name = "rpi_hal"
version = "0.1.0"
edition = "2021"
publish = false

[dependencies]
critical-section = "1"
smoltcp = { version = "0.12", default-features = false, features = ["medium-ethernet", "proto-ipv4", "socket-udp"] }
