[package]
name = "bindnames"
version = "0.1.0"
edition = "2021"
publish = false

[dependencies]
bindgen = "=0.73.2"
phf = "=0.14.0"
phf_codegen = "=0.14.0"
proc-macro2 = { version = "=1.0.107", default-features = false }
toml_edit = "=0.25.16"
