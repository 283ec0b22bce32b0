[package]
name = "dns"
version = "0.1.0"
edition = "2021"
publish = false

[dependencies]
async-recursion = "1"
async-trait = "0.1"
hickory-proto = "*"
moka = { version = "0.12", features = ["sync"] }
rand = "0.8"
tokio = { version = "1", features = ["macros", "net", "rt-multi-thread", "signal", "sync", "time"] }
