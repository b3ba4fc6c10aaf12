[package]
name = "phonetic_suggest"
version = "0.1.0"
edition = "2021"
publish = false

[dependencies]
edit-distance = "=2.2.2"
rupantor = "=0.3.0"
