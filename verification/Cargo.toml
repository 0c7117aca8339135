[package]
name = "kg_display"
version = "0.1.0"
edition = "2021"
publish = false

[dependencies]
proc-macro2 = "=0.4.30"
quote = "=0.6.13"
syn = "=0.15.44"
synstructure = "=0.10.2"
