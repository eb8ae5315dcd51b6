[package]
name = "glob_import"
version = "0.1.0"
edition = "2021"
publish = false

[dependencies]
glob = "*"
swc_core = { version = "*", features = ["common", "ecma_ast", "ecma_visit", "ecma_utils"] }
