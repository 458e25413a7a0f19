[package]
name = "rsvp"
version = "0.1.0"
edition = "2021"
publish = false

[dependencies]
pulldown-cmark = { version = "=0.13.6", default-features = false }
pdf-extract = "=0.12.1"
epub-parser = "=0.3.4"
unicode-segmentation = "=1.13.3"
unicode-width = "=0.2.0"
crossbeam-utils = "=0.8.23"
thiserror = "=2.0.21"
clap = { version = "=4.6.7", features = ["derive"] }
crossterm = "=0.28.1"
ratatui = "=0.29.0"

[dev-dependencies]
zip = "=9.2.2"
