[package]
name = "duat"
version = "0.1.0"
edition = "2021"
publish = false

[dependencies]
gapbuf = "*"
unicode-width = "*"
regex-automata = "*"
regex-syntax = "*"
cassowary = "*"
crossterm = "*"
