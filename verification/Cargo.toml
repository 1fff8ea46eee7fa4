[package]
name = "dns_batch"
version = "0.1.0"
edition = "2021"
publish = false

[dependencies]
duckdb = { version = "*", features = ["vscalar", "vtab-arrow", "loadable-extension"] }
duckdb-loadable-macros = "*"
libduckdb-sys = { version = "*", features = ["loadable-extension"] }
futures = "0.3"
tokio = { version = "1", features = ["rt-multi-thread", "sync"] }
trust-dns-resolver = "0.23"
