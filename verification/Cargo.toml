[package]
name = "dropbox_backup_to_external_disk_lib"
version = "0.1.0"
edition = "2021"
publish = false

[dependencies]
rayon = "1"
dropbox-content-hasher = "*"
serde = { version = "1", features = ["derive"] }
serde_json = "1"
walkdir = "2"
filetime = "*"
humantime = "2"
chrono = "0.4"
crossplatform_path = "1"

[dev-dependencies]
uncased = "0.9"
