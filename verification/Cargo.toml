[package]
name = "dragonfly"
version = "0.1.0"
edition = "2021"
publish = false

[dependencies]
alea = "*"
arrayvec = "0.7"
clap = "2"
compute = "*"
csv = "1"
fitsio = "*"
lazy_static = "1"
lexical = "*"
rayon = "1"
serde = { version = "1", features = ["derive"] }
serde_json = "1"
structopt = "0.3"
