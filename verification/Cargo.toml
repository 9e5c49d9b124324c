[package]
name = "prank"
version = "0.1.0"
edition = "2021"
publish = false

[dependencies]
itertools = "0.10"
comrak = { version = "0.12", default-features = false }
pbkdf2 = "0.8"
rand = "0.8"
rand_core = { version = "0.6", features = ["std"] }
chrono = "0.4"
anyhow = "1"
diesel = { version = "2", features = ["sqlite", "chrono", "r2d2"] }
rocket = { version = "0.5", features = ["json", "secrets"] }
rocket_dyn_templates = { version = "0.1", features = ["tera"] }
rocket_sync_db_pools = { version = "0.1", features = ["diesel_sqlite_pool"] }
lettre = "0.10"
rpassword = "5"
structopt = "0.3"
