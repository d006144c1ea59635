[package]
name = "irqgaps"
version = "0.1.0"
edition = "2021"
publish = false

[dependencies]
bcc = "*"
core_affinity = "*"
ctrlc = "*"
libc = "*"
structopt = "*"
