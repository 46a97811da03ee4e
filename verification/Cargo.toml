[package]
name = "masterchef"
version = "0.1.0"
edition = "2021"
publish = false

[dependencies]
elrond-wasm = "=0.27.4"
elrond-wasm-node = "=0.27.4"
