[package]
name = "rtt_log"
version = "0.1.0"
edition = "2021"
publish = false

[dependencies]
riscv = "=0.7.0"
jlink_rtt = "=0.2.0"
