[package]
name = "openlabels_core"
version = "0.1.0"
edition = "2021"
publish = false

[dependencies]
regex = "1"
aho-corasick = "1"
memchr = "2"
rayon = "1"
