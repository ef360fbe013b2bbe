[package]
name = "thin_main_loop"
version = "0.1.0"
edition = "2021"
publish = false

[dependencies]
futures = "*"
