[package]
name = "ss7_mtp3"
version = "1.1.0"
edition = "2021"
publish = false

[dependencies]
async-trait = "0.1"
pyo3 = "*"
serde = { version = "1", features = ["derive"] }
thiserror = "*"
