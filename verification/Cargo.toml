[package]
name = "kclvm_sema"
version = "0.1.0"
edition = "2021"
publish = false

[dependencies]
indexmap = "1.9"
generational-arena = "0.2.9"
