[package]
name = "bspwm_cyberquote"
version = "0.1.0"
edition = "2021"
publish = false

[dependencies]
gtk = "0.18"
glib = "0.18"
pangocairo = "0.18"
rand = "0.8"
serde = { version = "1", features = ["derive"] }
serde_json = "1"
toml = "0.8"
