[package]
name = "polars_io"
version = "0.1.0"
edition = "2021"
publish = false

[dependencies]
arrow = "=4.1.0"
polars-core = "=0.13.4"
