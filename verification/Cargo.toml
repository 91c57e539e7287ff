[package]
name = "typos-lsp"
version = "0.1.0"
edition = "2021"
publish = false

[dependencies]
anyhow = "*"
bstr = "*"
ignore = "*"
itertools = "*"
matchit = "*"
regex = "*"
serde = { version = "*", features = ["derive"] }
serde_json = "*"
shellexpand = "*"
tokio = { version = "*", features = ["io-std", "macros", "rt-multi-thread"] }
toml_edit = "*"
tower-lsp-server = "*"
tracing = "*"
tracing-subscriber = { version = "*", features = ["env-filter"] }
typos = "*"
typos-cli = "*"
