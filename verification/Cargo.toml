[package]
name = "simple_message_channels"
version = "0.1.0"
edition = "2021"
publish = false

[dependencies]
bytes = "1"
checked_int_cast = "1"

[dev-dependencies]
integer-encoding = "*"
