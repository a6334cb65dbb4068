[package]
name = "wasm_rquickjs"
version = "0.1.0"
edition = "2021"
publish = false

[dependencies]
heck = "*"
toml_edit = "*"
anyhow = "*"
camino = "*"
clap = { version = "*", features = ["derive"] }
fs_extra = "*"
include_dir = "*"
wit-parser = "*"
wit-bindgen-core = "*"
