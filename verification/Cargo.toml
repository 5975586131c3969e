[package]
name = "otobot"
version = "0.1.0"
edition = "2021"
publish = false

[dependencies]
rand = "*"
unicode-segmentation = "*"
lindera = "*"
egg-mode = "*"
tokio = { version = "*", features = ["macros", "rt-multi-thread"] }
futures = "*"
dotenv = "*"
