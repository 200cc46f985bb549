[package]
name = "recursion_shapes"
version = "0.1.0"
edition = "2021"
publish = false

[dependencies]
p3-field = "0.2"
p3-koala-bear = "0.2"
bincode = "1.3"
serde = { version = "1", features = ["derive"] }
thiserror = "1"
tracing = "0.1"
