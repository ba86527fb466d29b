[package]
name = "dns_resolution"
version = "0.1.0"
edition = "2021"
publish = false

[dependencies]
futures = "0.1"
tokio-core = "0.1"
trust-dns-proto = "0.3"
trust-dns-resolver = "0.8"
