[package]
name = "restruct"
version = "0.1.0"
edition = "2021"
publish = false

[dependencies]
libc = "0.2"
proc-macro2 = "0.4"
quote = "0.6"
syn = "0.15"
