[package]
name = "anvesh"
version = "0.1.0"
edition = "2021"
publish = false

[dependencies]
actix-cors = "0.7"
actix-files = "0.6"
actix-governor = "0.5"
actix-web = "4"
async-trait = "0.1"
enumflags2 = "0.7"
error-stack = "0.4"
maud = "0.25"
