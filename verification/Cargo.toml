[package]
name = "tag_pdf_to_text"
version = "0.1.0"
edition = "2021"
publish = false

[dependencies]
flate2 = "1"
regex = "1"
strsim = "*"
urlencoding = "2"
natord = "1"
encoding_rs = "0.8"
lopdf = "*"
serde_json = "1"
tokio = { version = "1", features = ["rt-multi-thread", "time"] }
reqwest = { version = "0.12", default-features = false, features = ["rustls-tls"] }
