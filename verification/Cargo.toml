[package]
name = "outline_shaping"
version = "0.1.0"
edition = "2021"
publish = false

[dependencies]
itertools = "0.10"
kurbo = "0.9"
wasm-bindgen = "0.2"
regex = "1"
tiny-rng = "0.2"
ab_glyph_rasterizer = "0.1"
lalrpop-util = "0.20"
