[package]
name = "reel2mp3"
version = "0.1.0"
edition = "2021"
publish = false

[dependencies]
ratatui = "0.29"
libc = "0.2"
