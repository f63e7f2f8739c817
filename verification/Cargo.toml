[package]
name = "rustty_bird"
version = "0.1.0"
edition = "2021"
publish = false

[dependencies]
crossterm = "0.28"
rand = "0.9"
