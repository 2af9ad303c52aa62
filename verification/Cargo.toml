[package]
name = "taskqueue"
version = "0.1.0"
edition = "2021"
publish = false

[dependencies]
fehler = "1"
snafu = "0.7"
