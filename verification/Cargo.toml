[package]
name = "agg_files"
version = "0.1.0"
edition = "2021"
publish = false

[dependencies]
ignore = "0.4"
walkdir = "2"
