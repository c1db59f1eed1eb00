[package]
name = "rick_morty_back"
version = "0.1.0"
edition = "2021"
publish = false

[dependencies]
csv = "=1.4.0"
diesel = { version = "=1.4.8", features = ["postgres"] }
dotenv = "=0.15.0"
juniper = "0.16"
juniper_rocket = "0.9"
rocket = "0.5"
rocket_cors = "0.6"
serde = { version = "=1.0.229", features = ["derive"] }
serde_json = "=1.0.154"
