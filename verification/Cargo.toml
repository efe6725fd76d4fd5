[package]
name = "number2name"
version = "1.1.2"
edition = "2021"
publish = false

[dependencies]
structopt = "0.3"
lazy_static = "1.4"
criterion = "0.3"
