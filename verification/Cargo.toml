[package]
name = "dynamic_multi_reducer"
version = "0.1.0"
edition = "2021"
publish = false

[dependencies]
fast-socks5 = "*"
futures = "0.3"
log = "0.4"
thiserror = "1"
tokio = { version = "1", features = ["net", "rt", "sync"] }
