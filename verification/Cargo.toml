[package]
name = "pvped"
version = "0.1.0"
edition = "2021"
publish = false

[dependencies]
chrono = "=0.4.45"
edjr = { version = "=0.2.0", features = ["tokio", "loadout", "location", "fsd", "pvp", "died"] }
serde = { version = "=1.0.229", features = ["derive"] }
serde_json = "=1.0.154"
tokio = { version = "=1.54.1", features = ["fs", "io-util", "rt"] }
tracing = "=0.1.44"
dirs = "=7.0.0"
tracing-subscriber = { version = "=0.3.23", default-features = false, features = ["fmt", "std"] }
iced = { version = "=0.14.0", features = ["tokio"] }
iced_plot = "=0.5.0"
rfd = "=0.17.2"
