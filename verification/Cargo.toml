[package]
name = "spinshare"
version = "0.1.0"
edition = "2021"
publish = false

[dependencies]
chrono = { version = "0.4", features = ["serde"] }
nanoid = "0.4"
serde = { version = "1", features = ["derive"] }
serde_json = "1"
thiserror = "1"
log = "0.4"
dotenv = "0.15"
diesel = { version = "1.4", features = ["postgres", "chrono"] }
diesel_migrations = "1.4"
rocket = "0.4"
rocket_contrib = { version = "0.4", default-features = false, features = ["tera_templates", "serve", "diesel_postgres_pool"] }
