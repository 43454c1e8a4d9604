[package]
name = "aoc2019"
version = "0.1.0"
edition = "2021"
publish = false

[dependencies]
aoc-runner = "0.3"
aoc-runner-derive = "0.3"
