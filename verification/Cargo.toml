[package]
name = "mdlchef"
version = "0.1.0"
edition = "2021"
publish = false

[dependencies]
image = "0.23"
imageproc = "0.22"
fontdue = "0.5"
once_cell = "1"
serde = { version = "1", features = ["derive"] }
serde_json = "1"
json5 = "0.3"
walkdir = "2"
colored = "2"
chrono = "0.4"
regex = "1"
config = "0.11"
tokio = { version = "1", features = ["macros", "rt-multi-thread"] }
serenity = { version = "0.10", features = ["unstable_discord_api"] }
