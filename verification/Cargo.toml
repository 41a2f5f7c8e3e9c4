[package]
name = "sotalog"
version = "0.1.0"
edition = "2021"
publish = false

[dependencies]
regex = "=1.13.1"
chrono = "=0.4.45"
zip = { version = "=2.6.1", default-features = false, features = ["deflate"] }
csv = "=1.4.0"
uuid = { version = "=1.29.1", features = ["v4"] }
plotters = { version = "0.3", default-features = false, features = ["svg_backend", "line_series", "point_series"] }
serde = { version = "1", features = ["derive"] }
serde_json = "1"
