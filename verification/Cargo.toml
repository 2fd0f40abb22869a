[package]
name = "viontin"
version = "0.1.0"
edition = "2021"
publish = false

[dependencies]
regex = "1"
sha2 = "0.10"
aes-gcm = "0.10"
serde = { version = "1", features = ["derive"] }
serde_json = "1"
ctrlc = "3"
notify = "4"
thiserror = "1"
