[package]
name = "protodec"
version = "0.1.0"
edition = "2021"
publish = false

[dependencies]
ansi_term = "=0.12.1"
clap = "=4.6.7"
hex = "=0.4.3"
libc = "=0.2.190"
snailquote = "=0.3.1"
