[package]
name = "furigana_gen"
version = "0.1.0"
edition = "2021"
publish = false

[dependencies]
vibrato = "0.5"
quick-xml = "0.36"
lz4_flex = "0.11"
regex = "1"
bpaf = "0.9"
epub-builder = "0.7"
ureq = "2"
