[package]
name = "glas"
version = "0.1.2"
edition = "2021"
publish = false

[dependencies]
anyhow = "1"
clap = { version = "4", features = ["derive"] }
dunce = "1"
git2 = { version = "*", default-features = false }
owo-colors = "4"
rustc-hash = "2"
terminal_size = "*"
users = "0.11"
xattr = "1"
time = { version = "0.3", features = ["formatting", "local-offset", "macros"] }
