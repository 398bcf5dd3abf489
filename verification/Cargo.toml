[package]
name = "drawskill"
version = "0.1.0"
edition = "2021"
publish = false

[dependencies]
clap = { version = "4", features = ["derive"] }
cosmic-text = "*"
flate2 = "1"
indicatif = "0.17"
resvg = "*"
saphyr = "*"
serde_json = "1"
svg2pdf = "*"
tar = "0.4"
ureq = "2"
zip = { version = "*", default-features = false, features = ["deflate"] }
