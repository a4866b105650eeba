[package]
name = "gogextract"
version = "0.1.0"
edition = "2021"
publish = false

[dependencies]
anyhow = "1"
clap = { version = "4", default-features = false, features = ["std", "derive", "help", "usage", "error-context"] }
ctrlc = "3"
eframe = { version = "0.31", default-features = false, features = ["glow", "default_fonts", "x11"] }
flate2 = "1"
indicatif = "0.17"
memmap2 = "0.9"
quick-xml = "0.37"
rayon = "1"
rfd = "0.15"
zip = { version = "2", default-features = false, features = ["deflate"] }
