[package]
name = "stef_parser"
version = "0.1.0"
edition = "2021"
publish = false

[dependencies]
winnow = "0.5"
miette = "5"
thiserror = "1"
proc-macro2 = "1"
