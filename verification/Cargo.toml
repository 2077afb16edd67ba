[package]
name = "glass"
version = "0.1.0"
edition = "2021"
publish = false

[dependencies]
snailquote = "0.3"
line-span = "0.1"
thiserror = "1"
git-version = "0.3"
clap = { version = "3", features = ["derive"] }
log = "0.4"
simplelog = "0.12"
logos = "0.12"
