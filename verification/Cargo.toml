[package]
name = "fimbulfamb"
version = "0.1.0"
edition = "2021"
publish = false

[dependencies]
rand = "0.9"
tokio = { version = "1", features = ["sync", "time", "rt", "macros"] }
serde = { version = "1", features = ["derive"] }
rocket = { version = "0.5", features = ["json"] }
rocket_cors = "0.6"
rocket_ws = "0.1"
