[package]
name = "notepad"
version = "0.1.0"
edition = "2021"
publish = false

[dependencies]
chardetng = "0.1"
encoding_rs = "0.8"
uuid = { version = "1", features = ["v4"] }
serde = { version = "1", features = ["derive"] }
toml = "0.8"
dirs = "5"
tokio = { version = "1", features = ["fs"] }
rfd = { version = "0.15", default-features = false, features = ["xdg-portal", "tokio"] }
iced = { version = "0.13", default-features = false, features = ["tiny-skia", "fira-sans", "tokio", "advanced"] }
