[package]
name = "dfbhd_mus"
version = "0.1.0"
edition = "2021"
publish = false

[dependencies]
anyhow = "=1.0.104"
arrayvec = "=0.7.8"
itertools = "=0.12.1"
ncurses = "=5.101.0"
rayon = "=1.12.0"
rodio = { version = "=0.20.1", default-features = false }
serde_json = "=1.0.154"
