[package]
name = "rcore_vfs"
version = "0.1.0"
edition = "2021"
publish = false

[dependencies]
ext4_rs = "=1.3.3"
clap = "=2.34.0"
virtio-drivers = "=0.13.0"
