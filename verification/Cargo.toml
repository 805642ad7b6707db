[package]
name = "cheese_paper"
version = "0.1.0"
edition = "2021"
publish = false

[dependencies]
regex = "=1.13.1"
cow-utils = "=0.1.3"
icu_casemap = "=2.4.0"
toml_edit = "=0.25.17"
uuid = { version = "=1.29.0", features = ["v4"] }
tempfile = "=3.27.0"
egui = "=0.37.0"
serde = { version = "=1.0.229", features = ["derive"] }
spellbook = "=0.4.2"
notify = "*"
notify-debouncer-full = "*"
