[package]
name = "chess_engine"
version = "0.1.0"
edition = "2021"
publish = false

[dependencies]
bevy = "0.5"
bitflags = "=1.3.2"
thiserror = "=1.0.69"
