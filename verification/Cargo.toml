[package]
name = "egui_table"
version = "0.1.0"
edition = "2021"
publish = false

[dependencies]
vec1 = "*"
egui = "*"
eframe = { version = "*", default-features = false, features = ["persistence"] }
log = "*"
serde = { version = "*", features = ["derive"] }
