[package]
name = "earlyboot"
version = "0.1.0"
edition = "2021"
publish = false

[dependencies]
raw-cpuid = "*"
x86 = "*"
