[package]
name = "swbt_bumble_backend"
version = "0.1.1"
edition = "2021"

[dependencies]
rusb = "0.9"
