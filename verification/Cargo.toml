[package]
name = "arcaea"
version = "0.1.0"
edition = "2021"
publish = false

[dependencies]
tokio = { version = "=1.54.1", features = ["rt-multi-thread", "macros", "io-std"] }
tower-lsp = "=0.20.0"
pyo3 = { version = "=0.20.3", features = ["auto-initialize"] }
