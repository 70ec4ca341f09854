[package]
name = "calq"
version = "0.1.0"
edition = "2021"
publish = false

[dependencies]
bigdecimal = "0.4"
chumsky = "0.9"
color-eyre = "0.6"
rug = "1"
rustyline = "12"
