[package]
name = "ndless_text_viewer"
version = "0.1.0"
edition = "2021"
publish = false

[dependencies]
unicode-segmentation = "*"
ndless = "*"
ndless-sdl = "*"
ndless-freetype = "*"
ndless-handler = "*"
