[package]
name = "hack_interpreter"
version = "0.1.0"
edition = "2021"
publish = false

[dependencies]
docopt = "1"
serde = { version = "1", features = ["derive"] }
piston_window = "*"
image = "*"
