[package]
name = "rsokoban"
version = "0.1.0"
edition = "2021"
publish = false

[dependencies]
bit-set = "0.5"
cgmath = "0.18"
clap = "2"
glium = "0.32"
time = "0.1"
xmltree = "0.10.3"
