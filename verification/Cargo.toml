[package]
name = "rust_poc"
version = "0.1.0"
edition = "2021"
publish = false

[dependencies]
serde = "1"
serde_json = "1"
tokio = { version = "1", features = ["full"] }
warp = "0.3"
azure_core = "0.21"
azure_identity = "0.21"
azure_security_keyvault = "0.21"
azure_storage = "0.21"
azure_storage_datalake = "0.21"
