[package]
name = "msig_params"
version = "0.1.0"
edition = "2021"
publish = false

[dependencies]
fvm_shared = "*"
hex = "*"

[dev-dependencies]
serde_json = "*"
