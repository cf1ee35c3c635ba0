[package]
name = "hermit_sys"
version = "0.1.0"
edition = "2021"
publish = false

[dependencies]
smoltcp = { version = "0.7", default-features = false, features = ["std", "ethernet", "socket-raw", "socket-tcp", "socket-udp", "proto-ipv4", "proto-ipv6", "proto-dhcpv4", "async"] }
async-task = "4"
concurrent-queue = "1"
futures-lite = "1"
lazy_static = "1"
log = "0.4"
aarch64 = "*"
