[package]
name = "ims_rs"
version = "0.1.0"
edition = "2021"
publish = false

[dependencies]
clap = { version = "4", features = ["derive"] }
clap_complete = "4"
csv = "1"
dirs = "5"
image = "0.24"
image_hasher = "1"
imageproc = "0.23"
open = "5"
rayon = "1"
serde = { version = "1", features = ["derive"] }
serde_json = "1"
tempfile = "3"
tinyfiledialogs = "3"
zip = { version = "0.6", default-features = false, features = ["deflate"] }
