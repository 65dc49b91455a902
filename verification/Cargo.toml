[package]
name = "gql_codegen_core"
version = "0.1.0"
edition = "2021"
publish = false

[dependencies]
anyhow = "1"
apollo-compiler = "1"
clap = { version = "4", features = ["derive"] }
console = "*"
globset = "0.4"
serde = { version = "1", features = ["derive"] }
serde_json = "1"
walkdir = "2"
