[package]
name = "perl_xs"
version = "0.1.0"
edition = "2021"
publish = false

[dependencies]
ctor = "=0.1.26"
syn = { version = "=0.15.44", features = ["full", "extra-traits"] }
quote = "=0.6.13"
proc-macro2 = "=0.4.30"
