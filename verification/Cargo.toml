[package]
name = "termesh"
version = "0.1.0"
edition = "2021"
publish = false

[dependencies]
byteorder = "1"
num-traits = "0.2"
termion = "1.5"
structopt = "0.2"
