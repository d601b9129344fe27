[package]
name = "dbtools"
version = "0.1.0"
edition = "2021"
publish = false

[dependencies]
chrono = "=0.4.45"
clioptions = "=0.1.0"
regex = "=1.13.1"
rustc-serialize = "=0.3.25"
