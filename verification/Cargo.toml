[package]
name = "k2p_matrix"
version = "0.1.0"
edition = "2021"

[dependencies]
clap = { version = "*", features = ["derive"] }
rayon = "*"
