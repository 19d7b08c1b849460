[package]
name = "tape_tui"
version = "0.1.0"
edition = "2021"
publish = false

[dependencies]
unicode-segmentation = "1"
unicode-width = "0.2"
markdown = "1.0.0-alpha.21"
