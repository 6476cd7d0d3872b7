[package]
name = "pathtracer"
version = "0.1.0"
edition = "2021"
publish = false

[dependencies]
rand = "0.7"
rayon = "1"
serde = { version = "1", features = ["derive"] }
serde_json = "1"
structopt = "0.3"
ctrlc = "3"
indicatif = "0.15"
image = { version = "0.23", default-features = false, features = ["png"] }
