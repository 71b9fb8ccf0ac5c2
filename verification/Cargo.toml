[package]
name = "libredrop_net"
version = "0.1.0"
edition = "2021"
publish = false

[dependencies]
safe_crypto = "0.4"
bincode = "1"
get_if_addrs = "0.5"
tokio = "0.1"
futures = "0.1"
future-utils = "*"
void = "1"
log = "0.4"
