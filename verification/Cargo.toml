[package]
name = "boba_script"
version = "0.1.0"
edition = "2021"
publish = false

[dependencies]
unicode-segmentation = "*"
indexmap = "*"
fxhash = "*"
clap = { version = "*", features = ["derive"] }
reedline = "*"
