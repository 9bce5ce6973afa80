[package]
name = "manga2epub"
version = "0.1.0"
edition = "2021"
publish = false

[dependencies]
quick-xml = "*"
time = { version = "0.3", features = ["formatting", "parsing"] }
zip = "*"
clap = { version = "4", features = ["derive"] }
serde = { version = "1", features = ["derive"] }
yaml_serde = "*"
sys-locale = "*"
rust-i18n = "3"
uuid = { version = "1", features = ["v4"] }
