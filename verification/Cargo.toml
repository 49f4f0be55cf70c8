[package]
name = "rust_fun_apps"
version = "0.1.0"
edition = "2021"
publish = false

[dependencies]
image = { version = "=0.25.10", default-features = false, features = ["bmp", "dds", "exr", "ff", "gif", "hdr", "ico", "jpeg", "png", "pnm", "qoi", "tga", "tiff", "webp"] }
clap = { version = "=4.6.7", features = ["derive"] }
ctrlc = "=3.5.2"
enable-ansi-support = "=0.2.1"
macroquad = "=0.4.16"
rand = "=0.8.8"
cpal = "=0.15.3"
