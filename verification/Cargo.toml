[package]
name = "manga_koukan"
version = "0.1.0"
edition = "2021"
publish = false

[dependencies]
image = "0.25"
rayon = "1"
clap = { version = "4", features = ["derive"] }
log = "0.4"
pretty_env_logger = "0.5"
tar = "0.4"
zip = { version = "2", default-features = false }
