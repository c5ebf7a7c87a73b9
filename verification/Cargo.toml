[package]
name = "picana"
version = "0.1.0"
edition = "2021"
publish = false

[dependencies]
socketcan = "=1.7.0"
hex = "0.4"
memchr = "2"
hashbrown = "0.9"
canparse = "0.1"
memmap = "0.7"
mio = { version = "0.7", features = ["os-poll", "os-util"] }
parking_lot = "0.11"
lazy_static = "1"
log = "0.4"
libc = "0.2"
