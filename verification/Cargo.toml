[package]
name = "remine_client"
version = "0.1.0"
edition = "2021"
publish = false

[dependencies]
serde = { version = "1", features = ["derive"] }
serde_json = "1"
csv = "1"
newline-converter = "*"
quoted-string = "*"
magic-crypt = "3"
mime_guess = "2"
mac_address = "1"
dirs = "5"
clap = "2.33"
reqwest = { version = "0.11", features = ["json"] }
tokio = { version = "1", features = ["rt-multi-thread", "macros"] }
