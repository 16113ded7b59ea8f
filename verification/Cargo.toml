[package]
name = "printf_compat"
version = "0.1.0"
edition = "2021"
publish = false

[dependencies]
bitflags = "=1.3.2"
cstr_core = { version = "=0.2.6", default-features = false }
cty = "=0.2.2"
itertools = { version = "=0.10.5", default-features = false }
