[package]
name = "ldap_gateway"
version = "0.1.0"
edition = "2021"
publish = false

[dependencies]
rust-crypto = "0.2"
regex-syntax = "*"
sqlite = "*"
ldap3_proto = "*"
tokio = { version = "1", features = ["full"] }
tokio-util = { version = "*", features = ["codec"] }
futures = "*"

[dev-dependencies]
regex = "1"
