[package]
name = "vidaptive"
version = "0.1.0"
edition = "2021"

[dependencies]
bytes = "1"
thiserror = "2"
