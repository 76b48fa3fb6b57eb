[package]
name = "rustnet"
version = "0.1.1"
edition = "2021"
publish = false

[dependencies]
tokio = { version = "=1.54.1", features = ["full"] }
async-trait = "=0.1.92"
thiserror = "=1.0.69"
wg = { version = "=1.1.1", features = ["future"] }
