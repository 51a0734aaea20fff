[package]
name = "perturabo"
version = "0.1.0"
edition = "2021"
publish = false

[dependencies]
megaui = "=0.1.5"
rusttype = "=0.8.3"
smithay-client-toolkit = "=0.6.6"
