[package]
name = "keycloak_openapi_transformer"
version = "0.1.0"
edition = "2021"
publish = false

[dependencies]
scraper = "*"
openapiv3 = "*"
