[package]
name = "rho_tui"
version = "0.1.0"
edition = "2021"
publish = false

[dependencies]
base64 = "0.22"
unicode-segmentation = "1"
crossterm = "0.28"
dirs = "5"
