[package]
name = "clogbox"
version = "0.1.0"
edition = "2021"
publish = false

[dependencies]
slotmap = "1"
num-traits = "0.2"
thiserror = "1"
