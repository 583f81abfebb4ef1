[package]
name = "kazoo_core"
version = "0.1.0"
edition = "2021"
publish = false

[dependencies]
ringbuf = "=0.4.8"
thiserror = "=2.0.21"
crossbeam-channel = "=0.5.17"
hound = "3"
