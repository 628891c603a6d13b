[package]
name = "aruvi_emulator"
version = "0.1.0"
edition = "2021"
publish = false
