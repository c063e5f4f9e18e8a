[package]
name = "rawst_dl"
version = "0.1.0"
edition = "2021"
publish = false

[dependencies]
sha2 = "*"
base64 = "*"
reqwest = { version = "*", default-features = false, features = ["stream", "cookies"] }
tokio = { version = "*", features = ["rt-multi-thread", "macros", "fs", "io-util"] }
futures = "*"
serde = { version = "*", features = ["derive"] }
serde_json = "*"
iri-string = "*"
chrono = "*"
directories = "*"
toml = "*"
ctrlc = "*"
