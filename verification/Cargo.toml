[package]
name = "canvas_grader"
version = "0.1.0"
edition = "2021"
publish = false

[dependencies]
canvasapi = "=0.5.0"
colored = "=3.1.1"
dialoguer = { version = "=0.12.0", features = ["fuzzy-select"] }
dotenv = "=0.15.0"
futures = "=0.3.34"
once_cell = "=1.21.4"
regex = "=1.13.1"
reqwest = { version = "=0.13.5", features = ["json"] }
serde = { version = "1", features = ["derive"] }
strum = { version = "=0.28.0", features = ["derive"] }
tokio = { version = "=1.54.1", features = ["fs", "macros", "rt-multi-thread"] }
zip-extract = "=0.4.1"
