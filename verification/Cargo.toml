[package]
name = "sceller"
version = "0.1.0"
edition = "2021"

[dependencies]
eyre = "0.6"
thiserror = "1"
