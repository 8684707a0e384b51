[package]
name = "tabler"
version = "0.1.0"
edition = "2021"

[dependencies]
csv = "*"
serde_json = "*"
calamine = "*"
clap = "*"
colored = "*"
prettytable-rs = "*"
