[package]
name = "dvdsrc"
version = "0.1.0"
edition = "2021"
publish = false

[dependencies]
byteorder = "1"
bincode = { version = "2", features = ["derive"] }
serde = { version = "1", features = ["derive"] }
serde_derive = "1"
home = "*"
const-str = "*"
vapoursynth4-rs = "*"
vapoursynth4-sys = "*"
