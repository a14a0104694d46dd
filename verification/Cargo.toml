[package]
name = "ada_executor"
version = "0.1.0"
edition = "2021"
publish = false

[dependencies]
uuid = "1"
log = "0.4"
simple_logger = "*"
