[package]
name = "noti-lsp"
version = "0.1.0"
edition = "2021"
publish = false

[dependencies]
tower-lsp = "0.20.0"
tokio = { version = "1", features = ["io-std", "macros", "rt-multi-thread"] }
dashmap = "6"
