[package]
name = "devplan"
version = "0.1.0"
edition = "2021"
publish = false

[dependencies]
chrono = "0.4"
serde = { version = "1", features = ["derive"] }
serde_json = "1"
rusqlite = { version = "*", features = ["bundled"] }
ureq = { version = "2", features = ["json"] }
log = "0.4"
once_cell = "1"
calamine = "*"
rust_xlsxwriter = "*"
strsim = "0.11"
jieba-rs = "*"
