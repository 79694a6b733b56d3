[package]
name = "yew_router"
version = "0.1.0"
edition = "2021"
publish = false

[dependencies]
regex = "1"
uuid = "0.8"
serde = { version = "1", features = ["derive"] }
yew = "0.9"
stdweb = "0.4"

[dev-dependencies]
nom = "5"
