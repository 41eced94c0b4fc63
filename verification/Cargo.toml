[package]
name = "etl_program"
version = "0.1.0"
edition = "2021"
publish = false

[dependencies]
chrono = "=0.4.45"
postgres = { version = "=0.19.14", features = ["with-chrono-0_4"] }
