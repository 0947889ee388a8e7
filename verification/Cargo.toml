[package]
name = "arc_replacer"
version = "0.1.0"
edition = "2021"
publish = false

[dependencies]
log = "*"
skyline = "*"
smash-arc = { version = "=0.6.0", features = ["nozstd"] }
