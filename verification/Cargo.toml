[package]
name = "rusql"
version = "0.1.0"
edition = "2021"
publish = false

[dependencies]
sqlparser = "*"
rustyline = "*"
rustyline-derive = "*"
colored = "*"
clap = "*"
env_logger = "*"
prettytable-rs = "*"
