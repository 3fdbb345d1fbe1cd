[package]
name = "shreddr"
version = "0.1.0"
edition = "2021"
publish = false

[dependencies]
regex = "*"
sha2 = "*"
whatlang = "*"
commonregex = "*"
diligent-date-parser = "*"
chrono = "*"
serde = { version = "*", features = ["derive"] }
serde_json = "*"
confy = { version = "*", default-features = false, features = ["yaml_conf"] }
crossbeam-channel = "*"
pdf-extract = "*"
notify = "*"
tantivy = "*"
thiserror = "*"
