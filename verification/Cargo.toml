[package]
name = "anki_convert"
version = "0.1.0"
edition = "2021"
publish = false

[dependencies]
clap = "=4.6.7"
html5ever = "=0.39.0"
itertools = "=0.15.0"
markup5ever_rcdom = "=0.39.0"
