[package]
name = "parser_util"
version = "0.1.0"
edition = "2021"
publish = false

[dependencies]
lalrpop-util = "0.19"
wasm-bindgen = "0.2"
yew = "0.17"
