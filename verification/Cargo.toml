[package]
name = "brilift"
version = "0.1.0"
edition = "2021"
publish = false

[dependencies]
argh = "=0.1.19"
cranelift-codegen = "=0.123.19"
cranelift-frontend = "=0.123.19"
cranelift-module = "=0.123.19"
cranelift-jit = "=0.123.19"
cranelift-object = "=0.123.19"
cranelift-native = "=0.123.19"
simplelog = "=0.12.2"
target-lexicon = "=0.13.5"
