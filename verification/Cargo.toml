[package]
name = "compiler-frontend"
version = "0.1.0"
edition = "2021"
publish = false

[dependencies]
la-arena = "=0.3.1"
line-index = "=0.1.2"
lsp-types = "=0.97.0"
pretty = "=0.12.5"
rustc-hash = "=2.1.3"
smol_str = "=0.3.7"
textwrap = "=0.16.4"
unicode-width = "=0.2.3"
