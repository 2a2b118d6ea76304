[package]
name = "bbscript"
version = "0.1.0"
edition = "2021"
publish = false

[dependencies]
bytes = "1"
hex = "0.4"
log = "0.4"
smallvec = "1"
thiserror = "1"
