[package]
name = "fcs_flim"
version = "0.1.0"
edition = "2021"
publish = false

[dependencies]
rand = "*"
uuid = "*"
serde = "*"
serde_derive = "*"
serde_json = "*"
rayon = "*"
dirs = "*"
chrono = "*"
