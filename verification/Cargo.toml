[package]
name = "sleeve"
version = "0.1.0"
edition = "2021"
publish = false

[dependencies]
serde_json = "1"
image = { version = "*", default-features = false, features = ["jpeg", "png", "gif", "bmp", "tiff"] }
audiotags = "*"
symphonia = { version = "*", features = ["all"] }
chrono = "*"
relm4 = { version = "*", features = ["libadwaita"] }
libblur = "*"
