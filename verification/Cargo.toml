[package]
name = "paramesh"
version = "0.1.0"
edition = "2021"
publish = false

[dependencies]
rand = "=0.9.5"
anyhow = "=1.0.104"
dirs = "=7.0.0"
microcad-lang = "=0.5.1"
microcad-lang-base = "=0.5.1"
microcad-lang-parse = "=0.5.1"
microcad-core = "=0.5.1"
microcad-builtin = "=0.5.1"
