[package]
name = "starsector"
version = "0.1.0"
edition = "2021"
publish = false

[dependencies]
chrono = "0.4"
hex = "0.4"
indexmap = "1"
indextree = "4"
iobuffer = "*"
orgize = "0.9"
rand = "0.8"
ropey = "1"

