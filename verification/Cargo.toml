[package]
name = "countryfetch"
version = "0.1.0"
edition = "2021"
publish = false

[dependencies]
deunicode = "1.6"
heck = "0.5"
resvg = "0.45"
image = "0.24"
rascii_art = "0.4"
palette_extract = "0.1"
flate2 = "1"
serde = { version = "1", features = ["derive"] }
serde_json = "1"
rayon = "1"
ureq = "3"

[dev-dependencies]
