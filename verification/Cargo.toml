[package]
name = "smt_automaton"
version = "0.1.0"
edition = "2021"
publish = false

[dependencies]
petgraph = "=0.6.5"
clap = { version = "=3.2.25", features = ["derive"] }
opener = "=0.5.2"
