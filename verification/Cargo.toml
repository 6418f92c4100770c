[package]
name = "ywpm"
version = "0.1.0"
edition = "2021"
publish = false

[dependencies]
chrono = "0.4"
rand = "0.9"
clap = { version = "4", features = ["derive"] }
clap_complete = "4"
display-info = "*"
ffprobe = "*"
imagesize = "*"
indexmap = "2"
indoc = "2"
itertools = "*"
nix = { version = "*", features = ["poll", "signal"] }
sd-notify = "*"
serde = { version = "1", features = ["derive"] }
walkdir = "2"
yaml_serde = "*"
