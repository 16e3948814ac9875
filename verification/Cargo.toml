[package]
name = "nt-load-order"
version = "0.1.0"
edition = "2021"
publish = false

[dependencies]
anyhow = "1"
dlv-list = "*"
indexmap = "2"
nt-apiset = "*"
nt-hive = "*"
pelite = "*"
raw-cpuid = "*"
winreg = "*"
