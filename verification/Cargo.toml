[package]
name = "filament_core"
version = "0.1.0"
edition = "2021"
publish = false

[dependencies]
linked-hash-map = "=0.5.6"
codespan-reporting = "=0.11.1"
atty = "=0.2.14"
