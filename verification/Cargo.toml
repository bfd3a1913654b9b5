[package]
name = "graphql_app"
version = "0.1.0"
edition = "2021"
publish = false

[dependencies]
diesel = { version = "1.4", features = ["postgres"] }
dotenv = "0.15"
juniper = "0.14"
juniper-eager-loading = "0.5"
juniper-from-schema = "0.5"
juniper_rocket = "0.5"
rocket = "0.4"
rocket_contrib = { version = "0.4", default-features = false, features = ["diesel_postgres_pool"] }
