[package]
name = "hwpb"
version = "0.1.0"
edition = "2021"
publish = false

[dependencies]
bit-vec = "0.6"
chrono = { version = "0.4", features = ["serde"] }
csv = "1"
diesel = { version = "1.4", features = ["postgres", "chrono", "r2d2"] }
diesel_migrations = "1.4"
error-chain = "0.12"
hyper-sse = "*"
itertools = "0.10"
lazy_static = "1"
pam = "*"
rocket = "0.4"
rocket_contrib = { version = "0.4", default-features = false, features = ["json", "tera_templates"] }
serde = { version = "1", features = ["derive"] }
serde_derive = "1"
serde_json = "1"
