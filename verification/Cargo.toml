[package]
name = "orrery"
version = "0.1.0"
edition = "2021"
publish = false

[dependencies]
string-interner = "*"
indexmap = "2"
serde = { version = "1", features = ["derive"] }
svg = "*"
cosmic-text = "*"
log = "0.4"
thiserror = "*"
bumpalo = "3"
winnow = "*"
