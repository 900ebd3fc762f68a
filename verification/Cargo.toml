[package]
name = "unix_socket_based_client_server"
version = "0.1.0"
edition = "2021"
publish = false

[dependencies]
anyhow = "1"

[dev-dependencies]
serde_json = "1"
