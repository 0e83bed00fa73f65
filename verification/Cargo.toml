[package]
name = "input_redirection"
version = "0.1.0"
edition = "2021"
publish = false

[dependencies]
anyhow = "1"
byteorder = "1"
ctrlc = "3"
directories = "5"
gilrs = "0.11"
serde = { version = "1", features = ["derive"] }
toml = "0.8"
