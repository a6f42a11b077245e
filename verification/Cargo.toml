[package]
name = "yarn_slinger"
version = "0.1.0"
edition = "2021"
publish = false

[dependencies]
antlr-rust = "0.3.0-beta"
thiserror = "1"
winnow = "0.4"
