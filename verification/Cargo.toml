[package]
name = "empreintes"
version = "0.1.0"
edition = "2021"
publish = false

[dependencies]
minimp3 = "*"
rusqlite = "*"
rustfft = "*"
actix-web = "4"
actix-multipart = "*"
actix-cors = "*"
futures-util = "*"
