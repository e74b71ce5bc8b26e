[package]
name = "otlp_string_processing"
version = "0.1.0"
edition = "2021"
publish = false

[dependencies]
simdutf8 = "*"
