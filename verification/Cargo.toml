[package]
name = "rename-me"
version = "0.1.0"
edition = "2021"
publish = false

[dependencies]
anyhow = "=1.0.104"
thiserror = "=2.0.21"
derive_more = { version = "=2.1.1", features = ["display", "constructor"] }
inkwell = { version = "=0.6.0", features = ["llvm14-0-force-dynamic"] }
