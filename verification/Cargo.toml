[package]
name = "di"
version = "0.1.0"
edition = "2021"
publish = false

[dependencies]
futures = "=0.3.34"
thiserror = "=2.0.21"
tracing = "0.1"
