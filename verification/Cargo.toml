[package]
name = "lpu"
version = "0.1.0"
edition = "2021"
publish = false

[dependencies]
dotenv = "0.15"
miniserde = "0.1"
minreq = "2"
