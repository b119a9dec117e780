[package]
name = "expr_evolution"
version = "0.1.0"
edition = "2021"
publish = false

[dependencies]
ordered-float = "5"
rand = "0.9"
rayon = "1"
