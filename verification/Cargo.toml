[package]
name = "cargo_cache"
version = "0.8.3"
edition = "2021"
publish = false

[dependencies]
humansize = "1.1"
regex = "1"
chrono = "0.4"
unicode-normalization = "0.1"
walkdir = "2"
rayon = "1"
home = "0.5"
clap = "3"
cargo_metadata = "0.15"
git2 = { version = "0.14", default-features = false }
flate2 = "1"
tar = "0.4"
dirs-next = "2"
normpath = "1"
fs_at = "0.1"
libc = "0.2"
cvt = "0.1"
cfg-if = "1"
