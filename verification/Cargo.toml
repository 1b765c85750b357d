[package]
name = "guard_queries"
version = "0.1.0"
edition = "2021"
publish = false

[dependencies]
fxhash = "=0.2.1"
oxc_cfg = "=0.143.0"
oxc_syntax = "=0.143.0"
