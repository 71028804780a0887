[package]
name = "nix-hapi-provider-ldap"
version = "0.1.0"
edition = "2021"
publish = false

[dependencies]
regex = "1"
serde = { version = "1", features = ["derive"] }
serde_json = "1"
ldap3 = { version = "0.11", default-features = false, features = ["sync"] }
tokio = { version = "1", features = ["rt-multi-thread", "macros"] }
