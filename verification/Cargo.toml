[package]
name = "ragfs_cache_memstore"
version = "0.1.0"
edition = "2021"
publish = false

[dependencies]
async-trait = "0.1"
bytes = "1"
libc = "0.2"
sha2 = "0.10"
thiserror = "1"
tokio = { version = "1", default-features = false, features = ["rt", "rt-multi-thread", "sync", "time", "macros"] }
