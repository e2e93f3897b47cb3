[package]
name = "phrase_reducer"
version = "0.1.0"
edition = "2021"
publish = false

[dependencies]
garnish_lang_compiler = "=0.0.24-alpha"
