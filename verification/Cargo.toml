[package]
name = "dashcompositor"
version = "0.2.0"
edition = "2021"
publish = false

[dependencies]
little-kitty = "*"
icy_sixel = "*"
