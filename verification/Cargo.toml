[package]
name = "mdbook_althtml"
version = "0.1.0"
edition = "2021"
publish = false

[dependencies]
mdbook = { version = "=0.4.52", default-features = false }
handlebars = "=6.4.4"
serde_json = "=1.0.151"
toml = "=1.1.7"
