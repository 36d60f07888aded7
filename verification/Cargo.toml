[package]
name = "solcore_lsp"
version = "0.1.0"
edition = "2021"
publish = false

[dependencies]
line-index = "0.1"
lsp-types = "0.94"
percent-encoding = "2"
serde_json = "1"
stacker = "0.1"
tokio = { version = "1", features = ["io-std", "macros", "rt-multi-thread", "sync"] }
tower-lsp = "0.20"
