[package]
name = "armature_testing"
version = "0.4.0"
edition = "2021"
publish = false

[dependencies]
serde = { version = "1", features = ["derive"] }
serde_json = "1"
thiserror = "2"
tokio = { version = "1", features = ["rt", "rt-multi-thread", "macros", "time"] }
uuid = { version = "1", features = ["v4"] }
async-trait = "0.1"
