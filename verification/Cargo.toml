[package]
name = "image_filters"
version = "0.1.0"
edition = "2021"
publish = false

[dependencies]
image = { version = "=0.24.9", default-features = false, features = ["png", "jpeg"] }
rand = "=0.8.8"
rocket = "=0.5.2"
rocket_dyn_templates = { version = "=0.2.0", features = ["handlebars"] }
rocket-multipart-form-data = "=0.10.7"
