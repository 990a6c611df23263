[package]
name = "dimsp"
version = "0.1.0"
edition = "2021"
publish = false

[dependencies]
sha3 = "0.10"
hex = "0.4"
rand = "0.8"
rs-snowflake = "0.6"
serde = { version = "1", features = ["derive"] }
serde_json = "1"
thiserror = "1"
anyhow = "1"
async-trait = "0.1"
futures = { version = "0.3", features = ["thread-pool"] }
log = "0.4"
once_cell = "1"
libipld = "0.12"
rusty-leveldb = "1"
