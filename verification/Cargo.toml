[package]
name = "ngs_chat_bots"
version = "0.1.0"
edition = "2021"
publish = false

[dependencies]
rand = "0.9"
async-std = "1"
anyhow = "1"
