[package]
name = "pgm"
version = "0.1.0"
edition = "2021"
publish = false

[dependencies]
anyhow = "1"
clap = "4"
dotenv = "0.15"
md5 = "0.7"
tempfile = "3"
