[package]
name = "y_sync"
version = "0.1.0"
edition = "2021"
publish = false

[dependencies]
yrs = "0.19"
thiserror = "1"
