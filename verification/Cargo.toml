[package]
name = "rust-loop-vectorizer"
version = "0.1.0"
edition = "2021"
publish = false

[dependencies]
crossterm = "0.28"
llvm-sys = { version = "211", features = ["disable-alltargets-init", "no-llvm-linking"] }
ratatui = "0.29"
