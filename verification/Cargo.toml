[package]
name = "particle_system"
version = "0.1.0"
edition = "2021"
publish = false

[dependencies]
rand = "0.7"
glium = "0.24"
