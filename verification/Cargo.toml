[package]
name = "simple_dns"
version = "0.1.0"
edition = "2021"
publish = false

[dependencies]
serde = { version = "1", features = ["derive"] }
tokio = { version = "1", features = ["net", "rt", "rt-multi-thread", "macros"] }
trust-dns-proto = "=0.22.0"
trust-dns-resolver = "=0.22.0"
trust-dns-server = { version = "=0.22.1", features = ["resolver"] }
