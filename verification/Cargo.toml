[package]
name = "ic_kit"
version = "0.1.0"
edition = "2021"
publish = false

[dependencies]
candid = "0.7"
ic-cdk = "0.5"
serde = "1"
sha2 = "0.10"
