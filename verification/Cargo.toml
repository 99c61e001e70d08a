[package]
name = "jj_vcs"
version = "0.1.0"
edition = "2021"
publish = false

[dependencies]
arc-swap = "*"
anyhow = "*"
