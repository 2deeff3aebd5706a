[package]
name = "owofetch"
version = "0.1.0"
edition = "2021"
publish = false

[dependencies]
unicode-segmentation = "*"
english-numbers = "*"
owo-colors = "*"
sysinfo = "*"
structopt = "*"
textwrap = { version = "*", features = ["terminal_size"] }
