[package]
name = "yblp"
version = "0.1.0"
edition = "2021"
publish = false

[dependencies]
chrono = { version = "0.4", default-features = false, features = ["std"] }
clap = "2"
flate2 = "1"
num_cpus = "1"
regex = "1"
regex-syntax = "0.8"
threadpool = "1"
uuid = "1"
walkdir = "2"
