[package]
name = "machine"
version = "0.1.0"
edition = "2021"
publish = false

[dependencies]
case = "1"
proc-macro2 = "1"
syn = "2"
