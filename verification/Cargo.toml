[package]
name = "executor"
version = "0.1.0"
edition = "2021"
publish = false

[dependencies]
bit-iter = "=1.4.0"
lazy_static = "=1.5.1"
log = "=0.4.35"
riscv = "=0.6.0"
spin = "=0.9.9"
trapframe = "=0.11.0"
unicycle = "=0.6.3"
