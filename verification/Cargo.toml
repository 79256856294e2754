[package]
name = "mlir_core"
version = "0.1.0"
edition = "2021"
publish = false

[dependencies]
dashmap = "5"
anyhow = "1"
rnix = "0.11"
