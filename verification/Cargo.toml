[package]
name = "sheet_search"
version = "0.1.0"
edition = "2021"
publish = false

[dependencies]
calamine = "0.21"
chrono = { version = "0.4", features = ["serde"] }
diesel = { version = "2", features = ["postgres", "uuid", "chrono"] }
dotenvy = "*"
log = "0.4"
rayon = "1"
redis = "*"
regex = "1"
rocket = { version = "0.5", features = ["json"] }
rocket_cors = "*"
rocket_dyn_templates = { version = "*", features = ["tera"] }
rust_xlsxwriter = "*"
serde = { version = "1", features = ["derive"] }
serde_json = "1"
thiserror = "1"
uuid = { version = "1", features = ["v4", "serde"] }
