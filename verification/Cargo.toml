[package]
name = "webgrep"
version = "0.1.0"
edition = "2021"
publish = false

[dependencies]
clap = { version = "*", features = ["derive"] }
html5ever = "=0.39.0"
indicatif = "*"
markup5ever_rcdom = "=0.39.0"
num_cpus = "*"
regex = "=1.13.1"
reqwest = { version = "*", default-features = false }
tokio = { version = "*", features = ["macros", "rt-multi-thread", "time"] }
url = "=2.5.8"
