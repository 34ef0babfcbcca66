[package]
name = "resid"
version = "0.1.0"
edition = "2021"
publish = false

[dependencies]
clap = { version = "=4.6.7", features = ["derive"] }
cssparser = "=0.38.0"
html5ever = "=0.39.0"
lopdf = "=0.47.0"
markup5ever_rcdom = "=0.39.0"
precomputed-hash = "=0.1.1"
rustybuzz = "=0.20.1"
selectors = "=0.42.0"
ttf-parser = "=0.25.1"
unicode-bidi = "=0.3.18"
