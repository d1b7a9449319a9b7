[package]
name = "csharp_rust_migrator"
version = "0.1.0"
edition = "2021"
publish = false

[dependencies]
tree-sitter = "0.25"
tree-sitter-c-sharp = "0.23"
serde_json = "1"
ureq = { version = "2", features = ["json"] }
axum = { version = "0.7", features = ["multipart"] }
tokio = { version = "1", features = ["full"] }
tokio-stream = "0.1"
