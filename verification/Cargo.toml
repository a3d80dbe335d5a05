[package]
name = "luafix"
version = "0.1.0"
edition = "2021"
publish = false

[dependencies]
full_moon = "*"
owo-colors = "*"
stylua = { version = "*", default-features = false }
