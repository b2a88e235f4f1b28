[package]
name = "soundcloud_fs"
version = "0.1.0"
edition = "2021"
publish = false

[dependencies]
chrono = "0.4"
clap = "2"
env_logger = "*"
failure = "0.1"
failure_derive = "0.1"
fuse = "0.3"
id3 = "*"
libc = "0.2"
log = "0.4"
time = "0.1"
