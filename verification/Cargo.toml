[package]
name = "sitegen"
version = "0.1.0"
edition = "2021"
publish = false

[dependencies]
clap = { version = "=4.6.7", features = ["derive"] }
emojicons-2021 = "=2.0.1"
html-escape = "=0.2.15"
katex = "=0.4.6"
markdown = "=1.0.0"
mathjax = { version = "=0.1.1", default-features = false, features = ["node"] }
mlua = { version = "=0.9.9", features = ["lua54", "vendored"] }
notify = "=6.1.1"
rust-ini = "=0.21.3"
toml = "=0.8.23"
