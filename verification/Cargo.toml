[package]
name = "graph_embedding"
version = "0.1.0"
edition = "2021"
publish = false

[dependencies]
const_soft_float = "=0.1.4"
fnv = "=1.0.7"
log = "=0.4.34"
memmap = "=0.7.0"
rayon = "=1.12.0"
rustc_apfloat = "*"
