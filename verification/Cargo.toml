[package]
name = "binding_resolver"
version = "0.1.0"
edition = "2021"
publish = false

[dependencies]
css-color-parser2 = "*"
