[package]
name = "prometheus_client"
version = "0.1.0"
edition = "2021"
publish = false

[dependencies]
itoa = "1"
dtoa = "1"
prost = "*"
parking_lot = "*"
procfs = "*"
libc = "*"
quantiles = "*"
fastant = "*"
void = "1"
