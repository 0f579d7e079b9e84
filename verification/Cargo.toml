[package]
name = "pattern_sygus"
version = "0.1.0"
edition = "2021"
publish = false

[dependencies]
cranelift-codegen = "=0.133.3"
cranelift-isle = "=0.133.3"
