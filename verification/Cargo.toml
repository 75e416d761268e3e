[package]
name = "shors"
version = "0.1.0"
edition = "2021"
publish = false

[dependencies]
harsh = "*"
woothee = "*"
chrono = "*"
dotenv = "*"
crossbeam = "*"
