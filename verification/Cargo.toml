[package]
name = "arq"
version = "0.1.0"
edition = "2021"
publish = false

[dependencies]
rand = "=0.8.8"
rand_pcg = "0.3"
rand_seeder = "0.2"
uuid = { version = "=1.29.1", features = ["v4"] }
