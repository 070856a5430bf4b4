[package]
name = "wikilinks"
version = "0.1.0"
edition = "2021"
publish = false

[dependencies]
clap = { version = "4", features = ["derive"] }
colored = "2"
indicatif = "0.17"
prettytable-rs = "0.10"
walkdir = "2"

[dev-dependencies]
regex = "1"
