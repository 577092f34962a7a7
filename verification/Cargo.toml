[package]
name = "csvr"
version = "0.1.0"
edition = "2021"
publish = false

[dependencies]
csv = "1"
regex = "1"
chardetng = "0.1"
encoding_rs = "0.8"
calamine = "*"
objc = "0.2"
