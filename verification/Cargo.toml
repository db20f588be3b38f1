[package]
name = "mbxc"
version = "0.1.0"
edition = "2021"
publish = false

[dependencies]
base64 = "=0.23.1"
mail-parser = "=0.11.9"
quoted_printable = "=0.5.2"
rusqlite = { version = "=0.40.2", features = ["bundled", "serialize"] }
serde = { version = "=1.0.229", features = ["derive"] }
serde_json = "=1.0.151"
toml = "=1.1.7"
zip = { version = "=8.6.0", default-features = false, features = ["deflate"] }
