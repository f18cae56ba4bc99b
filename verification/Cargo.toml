[package]
name = "tekfor_game"
version = "0.1.0"
edition = "2021"
publish = false

[dependencies]
hecs = { version = "0.10", features = ["column-serialize"] }
serde = { version = "1", features = ["derive"] }
rmp-serde = "1"
macroquad = "0.4"
egui-macroquad = "*"
mlua = { version = "0.10", features = ["lua54", "vendored", "serialize"] }
ron = "0.8"
directories = "*"
anyhow = "1"
strum = { version = "0.26", features = ["derive"] }
