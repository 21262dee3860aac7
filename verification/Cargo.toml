[package]
name = "sdftool"
version = "0.1.0"
edition = "2021"
publish = false

[dependencies]
clap = "2"
png = "0.17"
rusttype = "0.9"
opencl3 = "*"
num_cpus = "1"
