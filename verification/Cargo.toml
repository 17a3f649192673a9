[package]
name = "wadfs"
version = "0.1.0"
edition = "2021"
publish = false

[dependencies]
goldsrc-rs = "*"
image = { version = "*", default-features = false, features = ["tga"] }
clap = { version = "*", features = ["derive"] }
fuser = "*"
libc = "*"
tracing = "*"
tracing-subscriber = "*"
